//! Stable sorting by a key.

use vstd::prelude::*;


use crate::text::compose::texts;
use crate::text::order::{text_le, text_less, text_lt, text_lt_asymmetric, text_lt_total, text_lt_transitive};

verus! {

/// A key that values are ordered by. Keys of which neither comes before the other rank equal.
pub trait SortKey: Sized {
    /// Whether this key comes before `other`.
    spec fn before(&self, other: &Self) -> bool;

    /// The order is a strict weak order.
    proof fn weak_order(a: &Self, b: &Self, c: &Self)
        ensures
            !a.before(a),
            a.before(b) && b.before(c) ==> a.before(c),
            !a.before(b) && !b.before(c) ==> !a.before(c),
    ;

    /// Whether this key comes before `other`.
    fn is_before(&self, other: &Self) -> (r: bool)
        ensures
            r == self.before(other),
    ;
}

impl SortKey for String {
    open spec fn before(&self, other: &Self) -> bool {
        text_lt(self@, other@)
    }

    proof fn weak_order(a: &Self, b: &Self, c: &Self) {
        if text_lt(a@, a@) {
            text_lt_asymmetric(a@, a@);
        }
        if text_lt(a@, b@) && text_lt(b@, c@) {
            text_lt_transitive(a@, b@, c@);
        }
        text_lt_total(a@, b@);
        text_lt_total(b@, c@);
        if text_lt(b@, a@) && text_lt(c@, b@) {
            text_lt_transitive(c@, b@, a@);
        }
        if text_lt(a@, c@) {
            text_lt_asymmetric(a@, c@);
        }
    }

    fn is_before(&self, other: &Self) -> (r: bool) {
        text_less(self.as_str(), other.as_str())
    }
}

/// Whether position `i` goes before position `j`: by its key, and among equal keys by place.
pub open spec fn ranks_before<K: SortKey>(keys: Seq<K>, i: int, j: int) -> bool {
    keys[i].before(&keys[j]) || (!keys[j].before(&keys[i]) && i < j)
}

/// Whether `order` lists positions of `keys` in ascending rank.
pub open spec fn ascending<K: SortKey>(keys: Seq<K>, order: Seq<int>) -> bool {
    &&& forall|a: int| 0 <= a < order.len() ==> 0 <= #[trigger] order[a] < keys.len()
    &&& forall|a: int, b: int|
        0 <= a < b < order.len() ==> ranks_before(keys, #[trigger] order[a], #[trigger] order[b])
}

/// Whether `order` lists all positions of `keys` in ascending rank.
pub open spec fn is_order<K: SortKey>(keys: Seq<K>, order: Seq<int>) -> bool {
    order.len() == keys.len() && ascending(keys, order)
}

/// The positions of `keys` in ascending rank.
pub open spec fn order_of<K: SortKey>(keys: Seq<K>) -> Seq<int> {
    choose|order: Seq<int>| is_order(keys, order)
}

/// A list of positions as integers.
pub open spec fn positions(v: Seq<usize>) -> Seq<int> {
    Seq::new(v.len(), |i: int| v[i] as int)
}

/// Rank is a strict total order of the positions.
pub proof fn ranks_total<K: SortKey>(keys: Seq<K>, i: int, j: int, k: int)
    ensures
        !ranks_before(keys, i, i),
        i != j ==> ranks_before(keys, i, j) || ranks_before(keys, j, i),
        ranks_before(keys, i, j) ==> !ranks_before(keys, j, i),
        ranks_before(keys, i, j) && ranks_before(keys, j, k) ==> ranks_before(keys, i, k),
{
    K::weak_order(&keys[i], &keys[i], &keys[i]);
    K::weak_order(&keys[i], &keys[j], &keys[i]);
    K::weak_order(&keys[j], &keys[i], &keys[j]);
    K::weak_order(&keys[i], &keys[j], &keys[k]);
    K::weak_order(&keys[k], &keys[j], &keys[i]);
    K::weak_order(&keys[i], &keys[k], &keys[j]);
    K::weak_order(&keys[j], &keys[k], &keys[i]);
    K::weak_order(&keys[j], &keys[i], &keys[k]);
    K::weak_order(&keys[k], &keys[i], &keys[j]);
}

/// Every position occurs in a complete ascending list.
pub proof fn order_is_complete<K: SortKey>(keys: Seq<K>, order: Seq<int>, i: int)
    requires
        is_order(keys, order),
        0 <= i < keys.len(),
    ensures
        order.contains(i),
{
    assert(order.no_duplicates()) by {
        assert forall|a: int, b: int|
            0 <= a < order.len() && 0 <= b < order.len() && a != b implies order[a]
            != order[b] by {
            ranks_total(keys, order[a], order[b], order[a]);
        }
    }
    order.unique_seq_to_set();
    let all = vstd::set_lib::set_int_range(0, keys.len() as int);
    vstd::set_lib::lemma_int_range(0, keys.len() as int);
    assert(order.to_set().subset_of(all)) by {
        assert forall|x: int| order.to_set().contains(x) implies all.contains(x) by {
            let a = choose|a: int| 0 <= a < order.len() && order[a] == x;
            assert(0 <= order[a] < keys.len());
        }
    }
    vstd::set_lib::lemma_subset_equality(order.to_set(), all);
    assert(all.contains(i));
    assert(order.to_set().contains(i));
}

/// There is a complete ascending list.
pub proof fn order_exists<K: SortKey>(keys: Seq<K>)
    ensures
        is_order(keys, order_of(keys)),
    decreases keys.len(),
{
    let order = some_order(keys);
    assert(is_order(keys, order));
}

/// A complete ascending list, by putting in one position after the other.
proof fn some_order<K: SortKey>(keys: Seq<K>) -> (order: Seq<int>)
    ensures
        is_order(keys, order),
    decreases keys.len(),
{
    if keys.len() == 0 {
        Seq::empty()
    } else {
        let fewer = keys.drop_last();
        let before = some_order(fewer);
        let n = keys.len() - 1;
        assert forall|i: int, j: int| 0 <= i < n && 0 <= j < n implies #[trigger] ranks_before(
            keys,
            i,
            j,
        ) == ranks_before(fewer, i, j) by {
            assert(keys[i] == fewer[i] && keys[j] == fewer[j]);
        }
        let p = place_for(keys, before, n, before.len() as int);
        let order = before.insert(p, n);
        assert forall|a: int| 0 <= a < order.len() implies 0 <= #[trigger] order[a]
            < keys.len() by {
            if a < p {
                assert(order[a] == before[a]);
            } else if a > p {
                assert(order[a] == before[a - 1]);
            }
        }
        assert forall|a: int, b: int| 0 <= a < b < order.len() implies ranks_before(
            keys,
            #[trigger] order[a],
            #[trigger] order[b],
        ) by {
            let x = if a < p { a } else { a - 1 };
            let y = if b < p { b } else { b - 1 };
            if a != p && b != p {
                assert(order[a] == before[x] && order[b] == before[y]);
                assert(ranks_before(fewer, before[x], before[y]));
                assert(ranks_before(keys, before[x], before[y]));
            } else if a == p {
                assert(order[b] == before[y]);
                assert(!ranks_before(keys, before[y], n));
                ranks_total(keys, n, before[y], n);
            } else {
                assert(order[a] == before[x]);
            }
        }
        order
    }
}

/// The place in an ascending list at which a further position goes.
proof fn place_for<K: SortKey>(keys: Seq<K>, before: Seq<int>, n: int, m: int) -> (p: int)
    requires
        0 <= m <= before.len(),
        forall|a: int| 0 <= a < before.len() ==> 0 <= #[trigger] before[a] < n,
        forall|a: int, b: int|
            0 <= a < b < before.len() ==> ranks_before(
                keys,
                #[trigger] before[a],
                #[trigger] before[b],
            ),
        forall|a: int| m <= a < before.len() ==> !ranks_before(keys, #[trigger] before[a], n),
    ensures
        0 <= p <= before.len(),
        forall|a: int| 0 <= a < p ==> ranks_before(keys, #[trigger] before[a], n),
        forall|a: int| p <= a < before.len() ==> !ranks_before(keys, #[trigger] before[a], n),
    decreases m,
{
    if m == 0 {
        0
    } else if ranks_before(keys, before[m - 1], n) {
        assert forall|a: int| 0 <= a < m implies ranks_before(keys, #[trigger] before[a], n) by {
            if a < m - 1 {
                ranks_total(keys, before[a], before[m - 1], n);
            }
        }
        m
    } else {
        place_for(keys, before, n, m - 1)
    }
}

/// There is only one complete ascending list.
pub proof fn order_is_unique<K: SortKey>(keys: Seq<K>, order: Seq<int>)
    requires
        is_order(keys, order),
    ensures
        order == order_of(keys),
{
    let other = order_of(keys);
    assert(is_order(keys, other));
    order_prefix_is_unique(keys, order, other, keys.len() as int);
    assert(order =~= other);
}

proof fn order_prefix_is_unique<K: SortKey>(keys: Seq<K>, x: Seq<int>, y: Seq<int>, n: int)
    requires
        is_order(keys, x),
        is_order(keys, y),
        0 <= n <= keys.len(),
    ensures
        forall|k: int| 0 <= k < n ==> x[k] == y[k],
    decreases n,
{
    if n > 0 {
        let k = n - 1;
        order_prefix_is_unique(keys, x, y, k);
        if x[k] != y[k] {
            ranks_total(keys, x[k], y[k], x[k]);
            order_step(keys, x, y, k);
            order_step(keys, y, x, k);
        }
    }
}

proof fn order_step<K: SortKey>(keys: Seq<K>, x: Seq<int>, y: Seq<int>, k: int)
    requires
        is_order(keys, x),
        is_order(keys, y),
        0 <= k < keys.len(),
        forall|j: int| 0 <= j < k ==> x[j] == y[j],
        x[k] != y[k],
    ensures
        !ranks_before(keys, x[k], y[k]),
{
    order_is_complete(keys, y, x[k]);
    let p = choose|p: int| 0 <= p < y.len() && y[p] == x[k];
    ranks_total(keys, x[k], y[k], x[k]);
    if p < k {
        assert(ranks_before(keys, x[p], x[k]));
        ranks_total(keys, x[k], x[k], x[k]);
    } else if p > k {
        assert(ranks_before(keys, y[k], y[p]));
    }
}

/// Merges two ascending lists of which every position of one differs from those of the other.
fn merge<K: SortKey>(keys: &Vec<K>, left: Vec<usize>, right: Vec<usize>) -> (r: Vec<usize>)
    requires
        ascending(keys@, positions(left@)),
        ascending(keys@, positions(right@)),
        left@.len() + right@.len() <= usize::MAX,
        forall|a: int, b: int|
            0 <= a < left@.len() && 0 <= b < right@.len() ==> left@[a] < right@[b],
    ensures
        ascending(keys@, positions(r@)),
        r@.len() == left@.len() + right@.len(),
        forall|c: int|
            0 <= c < r@.len() ==> left@.contains(#[trigger] r@[c]) || right@.contains(r@[c]),
{
    let mut r: Vec<usize> = Vec::new();
    let mut i: usize = 0;
    let mut j: usize = 0;
    while i < left.len() || j < right.len()
        invariant
            i <= left@.len(),
            j <= right@.len(),
            r@.len() == i + j,
            left@.len() + right@.len() <= usize::MAX,
            ascending(keys@, positions(left@)),
            ascending(keys@, positions(right@)),
            ascending(keys@, positions(r@)),
            forall|a: int, b: int|
                0 <= a < left@.len() && 0 <= b < right@.len() ==> left@[a] < right@[b],
            forall|c: int|
                0 <= c < r@.len() ==> left@.contains(#[trigger] r@[c]) || right@.contains(r@[c]),
            forall|c: int, a: int|
                0 <= c < r@.len() && i <= a < left@.len() ==> ranks_before(
                    keys@,
                    #[trigger] r@[c] as int,
                    #[trigger] left@[a] as int,
                ),
            forall|c: int, b: int|
                0 <= c < r@.len() && j <= b < right@.len() ==> ranks_before(
                    keys@,
                    #[trigger] r@[c] as int,
                    #[trigger] right@[b] as int,
                ),
        decreases left@.len() - i + right@.len() - j,
    {
        proof {
            assert forall|a: int| 0 <= a < left@.len() implies 0 <= #[trigger] left@[a]
                < keys@.len() by {
                assert(positions(left@)[a] == left@[a]);
            }
            assert forall|b: int| 0 <= b < right@.len() implies 0 <= #[trigger] right@[b]
                < keys@.len() by {
                assert(positions(right@)[b] == right@[b]);
            }
        }
        let take_left: bool = if i == left.len() {
            false
        } else if j == right.len() {
            true
        } else {
            !keys[right[j]].is_before(&keys[left[i]])
        };
        let ghost x: int = if take_left {
            left@[i as int] as int
        } else {
            right@[j as int] as int
        };
        let ghost before = r@;
        if take_left {
            r.push(left[i]);
            i += 1;
        } else {
            r.push(right[j]);
            j += 1;
        }
        proof {
            assert(r@ =~= before.push(x as usize));
            let new_i = i as int;
            let new_j = j as int;
            let li = if take_left { new_i - 1 } else { new_i };
            let rj = if take_left { new_j } else { new_j - 1 };
            assert forall|a: int| new_i <= a < left@.len() implies ranks_before(
                keys@,
                x,
                #[trigger] left@[a] as int,
            ) by {
                if take_left {
                    assert(ranks_before(keys@, positions(left@)[li], positions(left@)[a]));
                } else {
                    let f = left@[li] as int;
                    assert(ranks_before(keys@, x, f));
                    if a > li {
                        assert(ranks_before(keys@, positions(left@)[li], positions(left@)[a]));
                        ranks_total(keys@, x, f, left@[a] as int);
                    }
                }
            }
            assert forall|b: int| new_j <= b < right@.len() implies ranks_before(
                keys@,
                x,
                #[trigger] right@[b] as int,
            ) by {
                if !take_left {
                    assert(ranks_before(keys@, positions(right@)[rj], positions(right@)[b]));
                } else {
                    let f = right@[rj] as int;
                    assert(left@[li] < right@[rj]);
                    assert(ranks_before(keys@, x, f));
                    if b > rj {
                        assert(ranks_before(keys@, positions(right@)[rj], positions(right@)[b]));
                        ranks_total(keys@, x, f, right@[b] as int);
                    }
                }
            }
            assert forall|a: int, b: int| 0 <= a < b < r@.len() implies ranks_before(
                keys@,
                #[trigger] positions(r@)[a],
                #[trigger] positions(r@)[b],
            ) by {
                if b < before.len() {
                    assert(positions(before)[a] == positions(r@)[a]);
                    assert(positions(before)[b] == positions(r@)[b]);
                } else {
                    assert(r@[a] == before[a]);
                    if take_left {
                        assert(ranks_before(keys@, before[a] as int, left@[li] as int));
                    } else {
                        assert(ranks_before(keys@, before[a] as int, right@[rj] as int));
                    }
                }
            }
            assert forall|a: int| 0 <= a < r@.len() implies 0 <= #[trigger] positions(r@)[a]
                < keys@.len() by {
                if a < before.len() {
                    assert(positions(before)[a] == positions(r@)[a]);
                }
            }
            assert forall|c: int| 0 <= c < r@.len() implies left@.contains(#[trigger] r@[c])
                || right@.contains(r@[c]) by {
                if c < before.len() {
                    assert(r@[c] == before[c]);
                } else if take_left {
                    assert(left@[li] == r@[c]);
                } else {
                    assert(right@[rj] == r@[c]);
                }
            }
            assert forall|c: int, a: int|
                0 <= c < r@.len() && new_i <= a < left@.len() implies ranks_before(
                keys@,
                #[trigger] r@[c] as int,
                #[trigger] left@[a] as int,
            ) by {
                if c < before.len() {
                    assert(r@[c] == before[c]);
                }
            }
            assert forall|c: int, b: int|
                0 <= c < r@.len() && new_j <= b < right@.len() implies ranks_before(
                keys@,
                #[trigger] r@[c] as int,
                #[trigger] right@[b] as int,
            ) by {
                if c < before.len() {
                    assert(r@[c] == before[c]);
                }
            }
        }
    }
    r
}

/// Sorts the positions `from..to`.
fn sort_range<K: SortKey>(keys: &Vec<K>, from: usize, to: usize) -> (r: Vec<usize>)
    requires
        from <= to <= keys@.len(),
    ensures
        r@.len() == to - from,
        ascending(keys@, positions(r@)),
        forall|c: int| 0 <= c < r@.len() ==> from <= #[trigger] r@[c] < to,
    decreases to - from,
{
    let mut r: Vec<usize> = Vec::new();
    if to - from == 0 {
        return r;
    }
    if to - from == 1 {
        r.push(from);
        return r;
    }
    let mid: usize = from + (to - from) / 2;
    let left: Vec<usize> = sort_range(keys, from, mid);
    let right: Vec<usize> = sort_range(keys, mid, to);
    let m: Vec<usize> = merge(keys, left, right);
    proof {
        assert forall|c: int| 0 <= c < m@.len() implies from <= #[trigger] m@[c] < to by {
            if left@.contains(m@[c]) {
                let a = choose|a: int| 0 <= a < left@.len() && left@[a] == m@[c];
                assert(from <= left@[a] < mid);
            } else {
                let b = choose|b: int| 0 <= b < right@.len() && right@[b] == m@[c];
                assert(mid <= right@[b] < to);
            }
        }
    }
    m
}

/// The positions of `keys` in the order of the keys, equal keys in the order of their places.
pub fn sorted_order<K: SortKey>(keys: &Vec<K>) -> (r: Vec<usize>)
    ensures
        is_order(keys@, positions(r@)),
        positions(r@) == order_of(keys@),
{
    let r: Vec<usize> = sort_range(keys, 0, keys.len());
    proof {
        order_is_unique(keys@, positions(r@));
    }
    r
}

/// The values of `s` at the positions that `order` lists.
pub open spec fn picked<A>(s: Seq<A>, order: Seq<int>) -> Seq<A> {
    Seq::new(order.len(), |i: int| s[order[i]])
}

/// Listing every position once keeps how often each value occurs.
pub proof fn picked_keeps_values<A>(s: Seq<A>, order: Seq<int>)
    requires
        order.len() == s.len(),
        order.no_duplicates(),
        forall|i: int| 0 <= i < order.len() ==> 0 <= #[trigger] order[i] < s.len(),
    ensures
        picked(s, order).to_multiset() == s.to_multiset(),
    decreases s.len(),
{
    broadcast use vstd::seq_lib::group_to_multiset_ensures;

    if s.len() == 0 {
        assert(picked(s, order) =~= s);
    } else {
        let n = s.len() - 1;
        order.unique_seq_to_set();
        let all = vstd::set_lib::set_int_range(0, s.len() as int);
        vstd::set_lib::lemma_int_range(0, s.len() as int);
        assert(order.to_set().subset_of(all)) by {
            assert forall|x: int| order.to_set().contains(x) implies all.contains(x) by {
                let a = choose|a: int| 0 <= a < order.len() && order[a] == x;
                assert(0 <= order[a] < s.len());
            }
        }
        vstd::set_lib::lemma_subset_equality(order.to_set(), all);
        assert(all.contains(n));
        assert(order.to_set().contains(n));
        let p = choose|p: int| 0 <= p < order.len() && order[p] == n;
        let fewer = order.remove(p);
        let t = s.drop_last();
        assert forall|i: int| 0 <= i < fewer.len() implies 0 <= #[trigger] fewer[i] < t.len() by {
            let j = if i < p {
                i
            } else {
                i + 1
            };
            assert(fewer[i] == order[j]);
            assert(order[j] != order[p]);
        }
        assert forall|i: int, j: int|
            0 <= i < fewer.len() && 0 <= j < fewer.len() && i != j implies fewer[i] != fewer[j] by {
            let a = if i < p {
                i
            } else {
                i + 1
            };
            let b = if j < p {
                j
            } else {
                j + 1
            };
            assert(fewer[i] == order[a] && fewer[j] == order[b]);
        }
        picked_keeps_values(t, fewer);
        assert(picked(s, order) =~= picked(t, fewer).insert(p, s[n]));
        assert(s =~= t.push(s[n]));
        assert(picked(s, order).to_multiset() =~= picked(t, fewer).to_multiset().insert(s[n]));
        assert(s.to_multiset() =~= t.to_multiset().insert(s[n]));
    }
}

/// The texts in ascending order.
pub open spec fn sorted_texts(s: Seq<Seq<char>>) -> Seq<Seq<char>> {
    s.sort_by(|a: Seq<char>, b: Seq<char>| text_le(a, b))
}

/// The order of texts is total.
pub proof fn text_order_is_total()
    ensures
        vstd::relations::total_ordering(|a: Seq<char>, b: Seq<char>| text_le(a, b)),
{
    let le = |a: Seq<char>, b: Seq<char>| text_le(a, b);
    assert forall|a: Seq<char>, b: Seq<char>| #[trigger] le(a, b) && #[trigger] le(b, a) implies a
        == b by {
        if a != b {
            text_lt_asymmetric(a, b);
        }
    }
    assert forall|a: Seq<char>, b: Seq<char>, c: Seq<char>| #[trigger]
        le(a, b) && #[trigger] le(b, c) implies le(a, c) by {
        if a != b && b != c {
            text_lt_transitive(a, b, c);
        }
    }
    assert forall|a: Seq<char>, b: Seq<char>| #[trigger] le(a, b) || #[trigger] le(b, a) by {
        text_lt_total(a, b);
    }
}

/// A list in ascending order that holds the same texts is the sorted list.
pub proof fn sorted_texts_is(s: Seq<Seq<char>>, t: Seq<Seq<char>>)
    requires
        t.to_multiset() == s.to_multiset(),
        forall|i: int, j: int|
            0 <= i < j < t.len() ==> text_le(#[trigger] t[i], #[trigger] t[j]),
    ensures
        t == sorted_texts(s),
{
    let le = |a: Seq<char>, b: Seq<char>| text_le(a, b);
    text_order_is_total();
    s.lemma_sort_by_ensures(le);
    assert(vstd::relations::sorted_by(t, le));
    vstd::seq_lib::lemma_sorted_unique(t, s.sort_by(le), le);
}

/// The sorted list is in ascending order and holds the same texts.
pub proof fn sorted_texts_ascend(s: Seq<Seq<char>>)
    ensures
        sorted_texts(s).to_multiset() == s.to_multiset(),
        sorted_texts(s).len() == s.len(),
        forall|i: int, j: int|
            0 <= i < j < sorted_texts(s).len() ==> text_le(
                #[trigger] sorted_texts(s)[i],
                #[trigger] sorted_texts(s)[j],
            ),
{
    broadcast use vstd::seq_lib::group_to_multiset_ensures;

    let le = |a: Seq<char>, b: Seq<char>| text_le(a, b);
    text_order_is_total();
    s.lemma_sort_by_ensures(le);
    let t = sorted_texts(s);
    assert(t.to_multiset().len() == s.to_multiset().len());
    assert forall|i: int, j: int| 0 <= i < j < t.len() implies text_le(
        #[trigger] t[i],
        #[trigger] t[j],
    ) by {
        assert(le(t[i], t[j]));
    }
}

/// Lists without duplicates that hold the same things hold them equally often.
pub proof fn same_members<T>(a: Seq<T>, b: Seq<T>)
    requires
        a.no_duplicates(),
        b.no_duplicates(),
        forall|x: T| a.contains(x) <==> #[trigger] b.contains(x),
    ensures
        a.to_multiset() == b.to_multiset(),
        a.len() == b.len(),
{
    broadcast use vstd::seq_lib::group_to_multiset_ensures;

    a.lemma_multiset_has_no_duplicates();
    b.lemma_multiset_has_no_duplicates();
    assert forall|x: T| a.to_multiset().count(x) == b.to_multiset().count(x) by {
        assert(a.contains(x) <==> b.contains(x));
        assert(a.to_multiset().contains(x) <==> a.contains(x));
        assert(b.to_multiset().contains(x) <==> b.contains(x));
    }
    assert(a.to_multiset() =~= b.to_multiset());
    assert(a.to_multiset().len() == b.to_multiset().len());
}

/// Lists that hold the same things are sorted the same way.
pub proof fn sorted_texts_same(a: Seq<Seq<char>>, b: Seq<Seq<char>>)
    requires
        a.to_multiset() == b.to_multiset(),
    ensures
        sorted_texts(a) == sorted_texts(b),
{
    sorted_texts_ascend(a);
    sorted_texts_is(b, sorted_texts(a));
}

/// Lists that ascend and hold the same texts are the same.
pub proof fn ascending_is_unique(a: Seq<Seq<char>>, b: Seq<Seq<char>>)
    requires
        forall|i: int, j: int| 0 <= i < j < a.len() ==> text_lt(#[trigger] a[i], #[trigger] a[j]),
        forall|i: int, j: int| 0 <= i < j < b.len() ==> text_lt(#[trigger] b[i], #[trigger] b[j]),
        forall|x: Seq<char>| a.contains(x) <==> #[trigger] b.contains(x),
    ensures
        a == b,
{
    ascending_has_no_duplicates(a);
    ascending_has_no_duplicates(b);
    same_members(a, b);
    sorted_texts_is(b, a);
    sorted_texts_is(b, b);
}

proof fn ascending_has_no_duplicates(a: Seq<Seq<char>>)
    requires
        forall|i: int, j: int| 0 <= i < j < a.len() ==> text_lt(#[trigger] a[i], #[trigger] a[j]),
    ensures
        a.no_duplicates(),
{
    assert forall|i: int, j: int| 0 <= i < a.len() && 0 <= j < a.len() && i != j implies a[i]
        != a[j] by {
        let (x, y) = if i < j {
            (a[i], a[j])
        } else {
            (a[j], a[i])
        };
        assert(text_lt(x, y));
        text_lt_asymmetric(x, y);
    }
}

/// The strings in ascending order.
pub fn sort_texts(v: &Vec<String>) -> (r: Vec<String>)
    ensures
        texts(r@) == sorted_texts(texts(v@)),
        r@.len() == v@.len(),
        r@.to_multiset() == v@.to_multiset(),
{
    let order: Vec<usize> = sorted_order(v);
    let ghost o = positions(order@);
    let mut r: Vec<String> = Vec::new();
    for i in 0..order.len()
        invariant
            o == positions(order@),
            is_order(v@, o),
            r@ =~= picked(v@, o).take(i as int),
    {
        assert(0 <= o[i as int] < v@.len());
        r.push(v[order[i]].clone());
    }
    proof {
        assert(r@ =~= picked(v@, o));
        assert(o.no_duplicates()) by {
            assert forall|a: int, b: int|
                0 <= a < o.len() && 0 <= b < o.len() && a != b implies o[a] != o[b] by {
                ranks_total(v@, o[a], o[b], o[a]);
            }
        }
        picked_keeps_values(v@, o);
        let t = texts(r@);
        assert(t =~= picked(texts(v@), o));
        picked_keeps_values(texts(v@), o);
        assert forall|i: int, j: int| 0 <= i < j < t.len() implies text_le(
            #[trigger] t[i],
            #[trigger] t[j],
        ) by {
            assert(ranks_before(v@, o[i], o[j]));
            text_lt_total(t[i], t[j]);
        }
        sorted_texts_is(texts(v@), t);
    }
    r
}

} // verus!
