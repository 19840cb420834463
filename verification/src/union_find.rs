//! Disjoint sets of numbers.

use vstd::prelude::*;

verus! {

/// The sets that the numbers `0..n` are divided into, each with one of its members to stand for
/// it.
pub struct UnionFind {
    parent: Vec<usize>,
    root: Ghost<Seq<int>>,
    rank: Ghost<Seq<nat>>,
}

/// Every link leads one step nearer to the member that stands for the set.
spec fn links(parent: Seq<usize>, root: Seq<int>, rank: Seq<nat>) -> bool {
    &&& root.len() == parent.len()
    &&& rank.len() == parent.len()
    &&& forall|i: int| #![trigger root[i]]
        0 <= i < parent.len() ==> 0 <= root[i] < parent.len() && root[root[i]] == root[i]
    &&& forall|i: int| #![trigger parent[i]]
        0 <= i < parent.len() ==> {
            &&& 0 <= parent[i] < parent.len()
            &&& (parent[i] == i <==> root[i] == i)
            &&& root[parent[i] as int] == root[i]
            &&& (parent[i] != i ==> rank[i] < rank[parent[i] as int])
            &&& rank[i] <= rank[root[i]]
        }
}

impl View for UnionFind {
    type V = Seq<int>;

    /// Of each number the member that stands for its set.
    closed spec fn view(&self) -> Seq<int> {
        self.root@
    }
}

/// Each of the numbers `0..n` by itself.
pub open spec fn singles(n: nat) -> Seq<int> {
    Seq::new(n, |i: int| i)
}

/// The sets of `a` and `b` made one, for which the member of `b` stands.
pub open spec fn united(root: Seq<int>, a: int, b: int) -> Seq<int> {
    Seq::new(
        root.len(),
        |i: int|
            if root[i] == root[a] {
                root[b]
            } else {
                root[i]
            },
    )
}

/// The numbers `0..n`, each by itself at first, after the sets of each pair were made one.
pub open spec fn united_all(n: nat, pairs: Seq<(int, int)>) -> Seq<int>
    decreases pairs.len(),
{
    if pairs.len() == 0 {
        singles(n)
    } else {
        united(united_all(n, pairs.drop_last()), pairs.last().0, pairs.last().1)
    }
}

/// Whether a pair holds both numbers.
pub open spec fn paired(pairs: Seq<(int, int)>, x: int, y: int) -> bool {
    pairs.contains((x, y)) || pairs.contains((y, x))
}

/// Whether a pair holds each two numbers that stand next to each other.
pub open spec fn is_path(pairs: Seq<(int, int)>, path: Seq<int>) -> bool {
    &&& path.len() > 0
    &&& forall|k: int| #![trigger path[k]]
        0 <= k < path.len() - 1 ==> paired(pairs, path[k], path[k + 1])
}

/// Whether pairs connect two numbers, at once or over others. Every number is connected to itself.
pub open spec fn connected(pairs: Seq<(int, int)>, x: int, y: int) -> bool {
    exists|path: Seq<int>| #[trigger] is_path(pairs, path) && path[0] == x && path.last() == y
}

/// Whether all pairs are of the numbers `0..n`.
pub open spec fn are_below(n: nat, pairs: Seq<(int, int)>) -> bool {
    forall|k: int|
        0 <= k < pairs.len() ==> 0 <= (#[trigger] pairs[k]).0 < n && 0 <= pairs[k].1 < n
}

/// A path may go on where another begins.
proof fn connected_joins(pairs: Seq<(int, int)>, x: int, y: int, z: int)
    requires
        connected(pairs, x, y),
        connected(pairs, y, z),
    ensures
        connected(pairs, x, z),
{
    let p = choose|p: Seq<int>| #[trigger] is_path(pairs, p) && p[0] == x && p.last() == y;
    let q = choose|q: Seq<int>| #[trigger] is_path(pairs, q) && q[0] == y && q.last() == z;
    let path = p + q.drop_first();
    assert forall|k: int| 0 <= k < path.len() - 1 implies paired(
        pairs,
        #[trigger] path[k],
        path[k + 1],
    ) by {
        if k < p.len() - 1 {
            assert(path[k] == p[k] && path[k + 1] == p[k + 1]);
        } else {
            let m = k - (p.len() - 1);
            assert(path[k] == q[m] && path[k + 1] == q[m + 1]);
        }
    }
    assert(is_path(pairs, path));
    assert(path[0] == x);
    assert(path.last() == z) by {
        if q.len() == 1 {
            assert(path =~= p);
        }
    }
}

/// A path may be gone the other way.
proof fn connected_back(pairs: Seq<(int, int)>, x: int, y: int)
    requires
        connected(pairs, x, y),
    ensures
        connected(pairs, y, x),
{
    let p = choose|p: Seq<int>| #[trigger] is_path(pairs, p) && p[0] == x && p.last() == y;
    let path = Seq::new(p.len(), |k: int| p[p.len() - 1 - k]);
    assert forall|k: int| 0 <= k < path.len() - 1 implies paired(
        pairs,
        #[trigger] path[k],
        path[k + 1],
    ) by {
        let m = p.len() - 2 - k;
        assert(paired(pairs, p[m], p[m + 1]));
    }
    assert(is_path(pairs, path));
    assert(path[0] == y && path.last() == x);
}

/// More pairs connect no fewer numbers.
proof fn connected_by_more(pairs: Seq<(int, int)>, pair: (int, int), x: int, y: int)
    requires
        connected(pairs, x, y),
    ensures
        connected(pairs.push(pair), x, y),
{
    let p = choose|p: Seq<int>| #[trigger] is_path(pairs, p) && p[0] == x && p.last() == y;
    let more = pairs.push(pair);
    assert forall|k: int| 0 <= k < p.len() - 1 implies paired(more, #[trigger] p[k], p[k + 1]) by {
        let (a, b) = (p[k], p[k + 1]);
        if pairs.contains((a, b)) {
            let m = choose|m: int| 0 <= m < pairs.len() && pairs[m] == (a, b);
            assert(more[m] == (a, b));
        } else {
            let m = choose|m: int| 0 <= m < pairs.len() && pairs[m] == (b, a);
            assert(more[m] == (b, a));
        }
    }
    assert(is_path(more, p));
}

/// The numbers of a pair have one member to stand for them.
proof fn paired_have_one_member(n: nat, pairs: Seq<(int, int)>, k: int)
    requires
        are_below(n, pairs),
        0 <= k < pairs.len(),
    ensures
        united_all(n, pairs)[pairs[k].0] == united_all(n, pairs)[pairs[k].1],
    decreases pairs.len(),
{
    let before = pairs.drop_last();
    members_are_in_their_sets(n, before);
    assert(0 <= pairs[k].0 < n && 0 <= pairs[k].1 < n);
    if k < before.len() {
        assert(are_below(n, before)) by {
            assert forall|i: int| 0 <= i < before.len() implies 0 <= (#[trigger] before[i]).0 < n
                && 0 <= before[i].1 < n by {
                assert(before[i] == pairs[i]);
            }
        }
        paired_have_one_member(n, before, k);
    }
}

/// Whatever pairs of the numbers `0..n` were made one: there is a member to stand for each number,
/// and this member stands for itself.
pub proof fn members_are_in_their_sets(n: nat, pairs: Seq<(int, int)>)
    requires
        are_below(n, pairs),
    ensures
        united_all(n, pairs).len() == n,
        forall|i: int| #![trigger united_all(n, pairs)[i]]
            0 <= i < n ==> 0 <= united_all(n, pairs)[i] < n && united_all(n, pairs)[united_all(
                n,
                pairs,
            )[i]] == united_all(n, pairs)[i],
    decreases pairs.len(),
{
    if pairs.len() > 0 {
        let before = pairs.drop_last();
        assert forall|i: int| 0 <= i < before.len() implies 0 <= (#[trigger] before[i]).0 < n && 0
            <= before[i].1 < n by {
            assert(before[i] == pairs[i]);
        }
        members_are_in_their_sets(n, before);
        let root = united_all(n, before);
        let (a, b) = pairs.last();
        assert(pairs[pairs.len() - 1] == (a, b));
        assert(0 <= root[a] < n && 0 <= root[b] < n);
        assert forall|i: int| 0 <= i < n implies 0 <= #[trigger] united_all(n, pairs)[i] < n
            && united_all(n, pairs)[united_all(n, pairs)[i]] == united_all(n, pairs)[i] by {
            assert(0 <= root[i] < n);
        }
    }
}

/// Numbers with one member to stand for them are connected.
proof fn together_are_connected(n: nat, pairs: Seq<(int, int)>, i: int, j: int)
    requires
        are_below(n, pairs),
        0 <= i < n,
        0 <= j < n,
        united_all(n, pairs)[i] == united_all(n, pairs)[j],
    ensures
        connected(pairs, i, j),
    decreases pairs.len(),
{
    if pairs.len() == 0 {
        assert(is_path(pairs, seq![i]));
    } else {
        let before = pairs.drop_last();
        let (a, b) = pairs.last();
        assert(before.push((a, b)) =~= pairs);
        assert(pairs[pairs.len() - 1] == (a, b));
        assert forall|k: int| 0 <= k < before.len() implies 0 <= (#[trigger] before[k]).0 < n && 0
            <= before[k].1 < n by {
            assert(before[k] == pairs[k]);
        }
        members_are_in_their_sets(n, before);
        let root = united_all(n, before);
        assert(pairs.contains((a, b)));
        let step = seq![a, b];
        assert(step[0] == a && step[1] == b);
        assert(is_path(pairs, step));
        assert(connected(pairs, a, b));
        if root[i] == root[j] {
            together_are_connected(n, before, i, j);
            connected_by_more(before, (a, b), i, j);
        } else if root[i] == root[a] {
            together_are_connected(n, before, i, a);
            connected_by_more(before, (a, b), i, a);
            together_are_connected(n, before, b, j);
            connected_by_more(before, (a, b), b, j);
            connected_joins(pairs, i, a, b);
            connected_joins(pairs, i, b, j);
        } else {
            together_are_connected(n, before, j, a);
            connected_by_more(before, (a, b), j, a);
            together_are_connected(n, before, b, i);
            connected_by_more(before, (a, b), b, i);
            connected_joins(pairs, j, a, b);
            connected_joins(pairs, j, b, i);
            connected_back(pairs, j, i);
        }
    }
}

/// The numbers of a path have one member to stand for them.
proof fn path_has_one_member(n: nat, pairs: Seq<(int, int)>, path: Seq<int>, k: int)
    requires
        are_below(n, pairs),
        is_path(pairs, path),
        0 <= k < path.len(),
    ensures
        united_all(n, pairs)[path[0]] == united_all(n, pairs)[path[k]],
    decreases k,
{
    if k > 0 {
        path_has_one_member(n, pairs, path, k - 1);
        let (x, y) = (path[k - 1], path[k]);
        assert(paired(pairs, path[k - 1], path[k - 1 + 1]));
        if pairs.contains((x, y)) {
            let m = choose|m: int| 0 <= m < pairs.len() && pairs[m] == (x, y);
            paired_have_one_member(n, pairs, m);
        } else {
            let m = choose|m: int| 0 <= m < pairs.len() && pairs[m] == (y, x);
            paired_have_one_member(n, pairs, m);
        }
    }
}

/// After the sets of each pair of a list were made one, one member stands for two numbers exactly
/// where the pairs connect them.
pub proof fn together_where_connected(n: nat, pairs: Seq<(int, int)>, i: int, j: int)
    requires
        are_below(n, pairs),
        0 <= i < n,
        0 <= j < n,
    ensures
        united_all(n, pairs)[i] == united_all(n, pairs)[j] <==> connected(pairs, i, j),
{
    if united_all(n, pairs)[i] == united_all(n, pairs)[j] {
        together_are_connected(n, pairs, i, j);
    }
    if connected(pairs, i, j) {
        let path = choose|path: Seq<int>| #[trigger]
            is_path(pairs, path) && path[0] == i && path.last() == j;
        path_has_one_member(n, pairs, path, path.len() - 1);
    }
}

/// Follows the links from `i` to the member that stands for its set. Shortens the way to it.
fn climb(
    parent: &mut Vec<usize>,
    Ghost(root): Ghost<Seq<int>>,
    Ghost(rank): Ghost<Seq<nat>>,
    i: usize,
) -> (r: usize)
    requires
        links(old(parent)@, root, rank),
        i < root.len(),
    ensures
        links(final(parent)@, root, rank),
        r == root[i as int],
        r < root.len(),
        root[r as int] == r,
{
    let mut at: usize = i;
    while parent[at] != at
        invariant
            links(parent@, root, rank),
            at < parent@.len(),
            i < root.len(),
            root[at as int] == root[i as int],
        decreases rank[root[at as int]] - rank[at as int],
    {
        let up: usize = parent[at];
        let next: usize = parent[up];
        assert(rank[up as int] <= rank[next as int]);
        let ghost before = parent@;
        parent.set(at, next);
        proof {
            assert forall|k: int| 0 <= k < parent@.len() implies {
                &&& 0 <= #[trigger] parent@[k] < parent@.len()
                &&& (parent@[k] == k <==> root[k] == k)
                &&& root[parent@[k] as int] == root[k]
                &&& (parent@[k] != k ==> rank[k] < rank[parent@[k] as int])
                &&& rank[k] <= rank[root[k]]
            } by {
                assert(0 <= before[k] < before.len());
                assert(0 <= before[up as int] < before.len());
            }
            assert(rank[at as int] < rank[up as int]);
            assert(root[next as int] == root[at as int]);
            assert(0 <= parent@[next as int] < parent@.len());
        }
        at = next;
    }
    at
}

impl UnionFind {
    #[verifier::type_invariant]
    closed spec fn is_linked(&self) -> bool {
        links(self.parent@, self.root@, self.rank@)
    }

    /// Each of the numbers `0..n` by itself.
    pub fn new(n: usize) -> (r: UnionFind)
        ensures
            r@ == singles(n as nat),
    {
        let mut parent: Vec<usize> = Vec::new();
        for i in 0..n
            invariant
                parent@.len() == i,
                forall|k: int| 0 <= k < i ==> #[trigger] parent@[k] == k,
        {
            parent.push(i);
        }
        UnionFind {
            parent,
            root: Ghost(singles(n as nat)),
            rank: Ghost(Seq::new(n as nat, |i: int| 0nat)),
        }
    }

    /// The member that stands for the set of `i`. Shortens the way to it.
    pub fn find(&mut self, i: usize) -> (r: usize)
        requires
            i < old(self)@.len(),
        ensures
            final(self)@ == old(self)@,
            r == old(self)@[i as int],
            r < old(self)@.len(),
            old(self)@[r as int] == r,
    {
        proof {
            use_type_invariant(&*self);
        }
        let mut whole: UnionFind = UnionFind::new(0);
        std::mem::swap(&mut whole, self);
        let UnionFind { mut parent, root, rank } = whole;
        let r: usize = climb(&mut parent, root, rank, i);
        *self = UnionFind { parent, root, rank };
        r
    }

    /// Makes the sets of `a` and `b` one.
    pub fn union(&mut self, a: usize, b: usize)
        requires
            a < old(self)@.len(),
            b < old(self)@.len(),
        ensures
            final(self)@ == united(old(self)@, a as int, b as int),
    {
        let ra: usize = self.find(a);
        let rb: usize = self.find(b);
        let ghost root = self@;
        if ra == rb {
            assert(united(root, a as int, b as int) =~= root);
            return;
        }
        proof {
            use_type_invariant(&*self);
        }
        let ghost rank = self.rank@;
        let ghost before = self.parent@;
        let mut whole: UnionFind = UnionFind::new(0);
        std::mem::swap(&mut whole, self);
        let UnionFind { mut parent, root: _, rank: _ } = whole;
        parent.set(ra, rb);
        let ghost next = united(root, a as int, b as int);
        let ghost higher = Seq::new(
            rank.len(),
            |i: int|
                if root[i] == rb {
                    rank[i] + rank[ra as int] + 1
                } else {
                    rank[i]
                },
        );
        proof {
            assert forall|k: int| 0 <= k < parent@.len() implies 0 <= #[trigger] next[k]
                < parent@.len() && next[next[k]] == next[k] by {
                assert(0 <= root[k] < parent@.len());
            }
            assert forall|k: int| 0 <= k < parent@.len() implies {
                &&& 0 <= #[trigger] parent@[k] < parent@.len()
                &&& (parent@[k] == k <==> next[k] == k)
                &&& next[parent@[k] as int] == next[k]
                &&& (parent@[k] != k ==> higher[k] < higher[parent@[k] as int])
                &&& higher[k] <= higher[next[k]]
            } by {
                assert(0 <= before[k] < before.len());
                assert(0 <= root[k] < parent@.len());
                assert(0 <= before[ra as int] < before.len());
            }
        }
        *self = UnionFind { parent, root: Ghost(next), rank: Ghost(higher) };
    }
}

} // verus!
