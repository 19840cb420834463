//! Tests divided into parts that take about the same time.

use vstd::prelude::*;
use vstd::multiset::Multiset;
use vstd::string::*;

use crate::abbreviation::lists;
use crate::collection::{entry_of, has_key, Named, TextMap};
use crate::gather::{append_texts, gathered};
use crate::grouping::{groups_follow_keys, in_group, group_key, group_list, group_tests, groups_of, with_member, GroupList};
use crate::pattern::regex_error;
use crate::sort::{is_order, order_of, picked, picked_keeps_values, positions, ranks_total, sorted_order, sorted_texts, sorted_texts_ascend, SortKey};
use crate::text::order::text_lt;
use crate::text::compose::{clone_texts, texts};
use crate::time::{Duration, MAX_NANOS};

verus! {

broadcast use crate::text::compose::texts_push;

/// The lists one after the other.
pub open spec fn flat(s: Seq<Seq<Seq<char>>>) -> Seq<Seq<char>>
    decreases s.len(),
{
    if s.len() == 0 {
        Seq::empty()
    } else {
        flat(s.drop_last()) + s.last()
    }
}

/// How long a test usually takes; nothing where that is not known.
pub open spec fn usual_nanos(times: Seq<Named<Duration>>, name: Seq<char>) -> nat {
    if has_key(times, name) {
        entry_of(times, name).value@
    } else {
        0
    }
}

/// How long the tests of a unit usually take in all; `None` where it is known of none of them.
pub open spec fn unit_nanos(times: Seq<Named<Duration>>, unit: Seq<Seq<char>>) -> Option<nat>
    decreases unit.len(),
{
    if unit.len() == 0 {
        None
    } else {
        let before = unit_nanos(times, unit.drop_last());
        if has_key(times, unit.last()) {
            Some((if before is Some { before->0 } else { 0nat }) + entry_of(times, unit.last()).value@)
        } else {
            before
        }
    }
}

/// The tests that stay together: those of a group, or each test by itself.
pub open spec fn units_of(names: Seq<Seq<char>>, pattern: Option<Seq<char>>) -> Seq<
    Seq<Seq<char>>,
> {
    match pattern {
        None => Seq::new(names.len(), |i: int| seq![names[i]]),
        Some(p) => Seq::new(groups_of(p, names).len(), |i: int| groups_of(p, names)[i].1),
    }
}

/// What units are ordered by.
#[derive(Debug)]
pub struct UnitKey {
    /// How long the unit usually takes, where that is known.
    pub nanos: Option<u128>,
}

impl SortKey for UnitKey {
    /// The longest first, those of which nothing is known last.
    open spec fn before(&self, other: &Self) -> bool {
        match (self.nanos, other.nanos) {
            (Some(a), Some(b)) => a > b,
            (Some(_), None) => true,
            _ => false,
        }
    }

    proof fn weak_order(a: &Self, b: &Self, c: &Self) {
    }

    fn is_before(&self, other: &Self) -> (r: bool) {
        match (self.nanos, other.nanos) {
            (Some(a), Some(b)) => a > b,
            (Some(_), None) => true,
            _ => false,
        }
    }
}

/// The keys of the units.
pub open spec fn unit_keys(times: Seq<Named<Duration>>, units: Seq<Seq<Seq<char>>>) -> Seq<
    UnitKey,
> {
    Seq::new(
        units.len(),
        |i: int|
            UnitKey {
                nanos: match unit_nanos(times, units[i]) {
                    Some(n) => Some(n as u128),
                    None => None,
                },
            },
    )
}

/// The units in the order in which they are handed out.
pub open spec fn handed_out(times: Seq<Named<Duration>>, units: Seq<Seq<Seq<char>>>) -> Seq<
    Seq<Seq<char>>,
> {
    picked(units, order_of(unit_keys(times, units)))
}

/// The first position of a least number.
pub open spec fn least(loads: Seq<nat>) -> int
    decreases loads.len(),
{
    if loads.len() <= 1 {
        0
    } else {
        let before = least(loads.drop_last());
        if loads.last() < loads[before] {
            loads.len() - 1
        } else {
            before
        }
    }
}

/// How many of the first `n` units have a known duration.
pub open spec fn timed_count(times: Seq<Named<Duration>>, out: Seq<Seq<Seq<char>>>, n: nat) -> nat
    decreases n,
{
    if n == 0 {
        0
    } else {
        timed_count(times, out, (n - 1) as nat) + if unit_nanos(times, out[n - 1]) is Some {
            1nat
        } else {
            0nat
        }
    }
}

/// How much each part takes after the first `n` units.
pub open spec fn loads_after(
    times: Seq<Named<Duration>>,
    out: Seq<Seq<Seq<char>>>,
    total: nat,
    n: nat,
) -> Seq<nat>
    decreases n,
{
    if n == 0 {
        Seq::new(total, |i: int| 0nat)
    } else {
        let before = loads_after(times, out, total, (n - 1) as nat);
        match unit_nanos(times, out[n - 1]) {
            Some(d) => before.update(least(before), before[least(before)] + d),
            None => before,
        }
    }
}

/// The part that the unit at position `n` goes to: the one that takes least so far, or, where
/// nothing is known of the unit, the next one in turn.
pub open spec fn part_of(
    times: Seq<Named<Duration>>,
    out: Seq<Seq<Seq<char>>>,
    total: nat,
    n: int,
) -> int {
    if unit_nanos(times, out[n]) is Some {
        least(loads_after(times, out, total, n as nat))
    } else {
        (n - timed_count(times, out, n as nat)) % total as int
    }
}

/// The unit at a position where it goes to the part `s`.
pub open spec fn handed_to(
    times: Seq<Named<Duration>>,
    out: Seq<Seq<Seq<char>>>,
    total: nat,
    s: int,
) -> spec_fn(int) -> Seq<Seq<char>> {
    |n: int|
        if part_of(times, out, total, n) == s {
            out[n]
        } else {
            Seq::empty()
        }
}

/// The tests of one of `total` parts.
pub open spec fn partition_part(
    names: Seq<Seq<char>>,
    times: Seq<Named<Duration>>,
    total: nat,
    pattern: Option<Seq<char>>,
    s: int,
) -> Seq<Seq<char>> {
    let out = handed_out(times, units_of(names, pattern));
    gathered(handed_to(times, out, total, s), out.len())
}

/// All parts one after the other.
pub open spec fn all_parts(
    names: Seq<Seq<char>>,
    times: Seq<Named<Duration>>,
    total: nat,
    pattern: Option<Seq<char>>,
) -> Seq<Seq<char>> {
    gathered(|s: int| partition_part(names, times, total, pattern, s), total)
}

/// How long the tests usually take in all.
pub open spec fn all_nanos(times: Seq<Named<Duration>>, names: Seq<Seq<char>>) -> nat
    decreases names.len(),
{
    if names.len() == 0 {
        0
    } else {
        all_nanos(times, names.drop_last()) + usual_nanos(times, names.last())
    }
}

/// A least number is found within the list.
pub proof fn least_bounds(loads: Seq<nat>)
    requires
        loads.len() > 0,
    ensures
        0 <= least(loads) < loads.len(),
    decreases loads.len(),
{
    if loads.len() > 1 {
        least_bounds(loads.drop_last());
    }
}

/// The parts stay as many as they are, and every unit goes to one of them.
pub proof fn loads_len(times: Seq<Named<Duration>>, out: Seq<Seq<Seq<char>>>, total: nat, n: nat)
    requires
        total > 0,
    ensures
        loads_after(times, out, total, n).len() == total,
    decreases n,
{
    if n > 0 {
        loads_len(times, out, total, (n - 1) as nat);
        least_bounds(loads_after(times, out, total, (n - 1) as nat));
    }
}

/// Units whose duration is known are no more than there are units.
pub proof fn timed_bound(times: Seq<Named<Duration>>, out: Seq<Seq<Seq<char>>>, n: nat)
    ensures
        timed_count(times, out, n) <= n,
    decreases n,
{
    if n > 0 {
        timed_bound(times, out, (n - 1) as nat);
    }
}

/// Every unit goes to one of the parts.
pub proof fn part_in_range(
    times: Seq<Named<Duration>>,
    out: Seq<Seq<Seq<char>>>,
    total: nat,
    n: int,
)
    requires
        total > 0,
        0 <= n,
    ensures
        0 <= part_of(times, out, total, n) < total,
{
    loads_len(times, out, total, n as nat);
    least_bounds(loads_after(times, out, total, n as nat));
    timed_bound(times, out, n as nat);
    assert(0 <= (n - timed_count(times, out, n as nat)) % total as int && (n - timed_count(
        times,
        out,
        n as nat,
    )) % total as int <= total - 1) by (nonlinear_arith)
        requires
            n - timed_count(times, out, n as nat) >= 0,
            total > 0,
    ;
}

/// Adding a name to a group adds it to the names.
proof fn with_member_names(groups: GroupList, key: Seq<char>, name: Seq<char>)
    ensures
        flat(members(with_member(groups, key, name))).to_multiset() == flat(
            members(groups),
        ).to_multiset().insert(name),
    decreases groups.len(),
{
    broadcast use vstd::seq_lib::group_to_multiset_ensures;
    broadcast use vstd::multiset::group_multiset_axioms;

    let w = with_member(groups, key, name);
    if groups.len() == 0 || text_before(key, groups) {
        flat_cons(seq![name], members(groups));
        assert(members(w) =~= seq![seq![name]] + members(groups));
        vstd::seq_lib::lemma_multiset_commutative(seq![name], flat(members(groups)));
        assert(seq![name] =~= Seq::empty().push(name));
        assert(seq![name].to_multiset() =~= Multiset::empty().insert(name));
        assert(flat(members(w)).to_multiset() =~= flat(members(groups)).to_multiset().insert(name));
    } else if groups[0].0 == key {
        let rest = members(groups).drop_first();
        let first = groups[0].1;
        flat_cons(first.push(name), rest);
        flat_cons(first, rest);
        assert(members(w) =~= seq![first.push(name)] + rest);
        assert(members(groups) =~= seq![first] + rest);
        vstd::seq_lib::lemma_multiset_commutative(first.push(name), flat(rest));
        vstd::seq_lib::lemma_multiset_commutative(first, flat(rest));
        assert(first.push(name).to_multiset() =~= first.to_multiset().insert(name));
        assert(flat(members(w)).to_multiset() =~= flat(members(groups)).to_multiset().insert(name));
    } else {
        let rest = groups.drop_first();
        with_member_names(rest, key, name);
        let first = groups[0].1;
        let more = with_member(rest, key, name);
        flat_cons(first, members(more));
        flat_cons(first, members(rest));
        assert(members(w) =~= seq![first] + members(more));
        assert(members(groups) =~= seq![first] + members(rest));
        vstd::seq_lib::lemma_multiset_commutative(first, flat(members(more)));
        vstd::seq_lib::lemma_multiset_commutative(first, flat(members(rest)));
        assert(flat(members(w)).to_multiset() =~= flat(members(groups)).to_multiset().insert(name));
    }
}

/// Whether a key comes before that of the first group.
spec fn text_before(key: Seq<char>, groups: GroupList) -> bool {
    crate::text::order::text_lt(key, groups[0].0)
}

/// The members of each group.
pub open spec fn members(groups: GroupList) -> Seq<Seq<Seq<char>>> {
    Seq::new(groups.len(), |i: int| groups[i].1)
}

/// A list put in front comes first.
proof fn flat_cons(x: Seq<Seq<char>>, s: Seq<Seq<Seq<char>>>)
    ensures
        flat(seq![x] + s) == x + flat(s),
    decreases s.len(),
{
    let t = seq![x] + s;
    if s.len() == 0 {
        assert(t.drop_last() =~= Seq::<Seq<Seq<char>>>::empty());
        assert(flat(t.drop_last()) =~= Seq::<Seq<char>>::empty());
        assert(t.last() == x);
        assert(flat(s) =~= Seq::<Seq<char>>::empty());
        assert(flat(t) =~= x + flat(s));
    } else {
        flat_cons(x, s.drop_last());
        assert(t.drop_last() =~= seq![x] + s.drop_last());
        assert(flat(t) =~= x + flat(s));
    }
}

/// The units hold the same names as the list they are made of.
proof fn units_hold_names(names: Seq<Seq<char>>, pattern: Option<Seq<char>>)
    ensures
        flat(units_of(names, pattern)).to_multiset() == names.to_multiset(),
    decreases names.len(),
{
    broadcast use vstd::seq_lib::group_to_multiset_ensures;

    let units = units_of(names, pattern);
    if names.len() == 0 {
        assert(flat(units) =~= names);
    } else {
        let fewer = names.drop_last();
        units_hold_names(fewer, pattern);
        assert(names =~= fewer.push(names.last()));
        match pattern {
            None => {
                assert(units.drop_last() =~= units_of(fewer, pattern));
                assert(flat(units) =~= flat(units_of(fewer, pattern)).push(names.last()));
            },
            Some(p) => {
                let before = groups_of(p, fewer);
                with_member_names(before, group_key(p, names.last()), names.last());
                assert(members(before) =~= units_of(fewer, pattern));
                assert(members(groups_of(p, names)) =~= units);
            },
        }
    }
}

/// The names of lists in another order are the same.
proof fn flat_reordered(a: Seq<Seq<Seq<char>>>, b: Seq<Seq<Seq<char>>>)
    requires
        a.to_multiset() == b.to_multiset(),
    ensures
        flat(a).to_multiset() == flat(b).to_multiset(),
{
    let f = |acc: Multiset<Seq<char>>, x: Seq<Seq<char>>| acc.add(x.to_multiset());
    assert(vstd::seq_lib::commutative_foldl(f)) by {
        assert forall|x: Seq<Seq<char>>, y: Seq<Seq<char>>, v: Multiset<Seq<char>>| #[trigger]
            f(f(v, x), y) == f(f(v, y), x) by {
            assert(f(f(v, x), y) =~= f(f(v, y), x));
        }
    }
    vstd::seq_lib::lemma_fold_left_permutation(a, b, f, Multiset::empty());
    flat_is_fold(a, f);
    flat_is_fold(b, f);
}

proof fn flat_is_fold(
    a: Seq<Seq<Seq<char>>>,
    f: spec_fn(Multiset<Seq<char>>, Seq<Seq<char>>) -> Multiset<Seq<char>>,
)
    requires
        forall|acc: Multiset<Seq<char>>, x: Seq<Seq<char>>| #[trigger]
            f(acc, x) == acc.add(x.to_multiset()),
    ensures
        flat(a).to_multiset() == a.fold_left(Multiset::empty(), f),
    decreases a.len(),
{
    broadcast use vstd::seq_lib::group_to_multiset_ensures;

    if a.len() == 0 {
        assert(flat(a).to_multiset() =~= Multiset::empty());
    } else {
        flat_is_fold(a.drop_last(), f);
        vstd::seq_lib::lemma_multiset_commutative(flat(a.drop_last()), a.last());
    }
}

/// The units are handed out each once.
proof fn handed_out_holds_units(times: Seq<Named<Duration>>, units: Seq<Seq<Seq<char>>>)
    requires
        is_order(unit_keys(times, units), order_of(unit_keys(times, units))),
    ensures
        handed_out(times, units).to_multiset() == units.to_multiset(),
        handed_out(times, units).len() == units.len(),
{
    let keys = unit_keys(times, units);
    let o = order_of(keys);
    assert(o.no_duplicates()) by {
        assert forall|a: int, b: int|
            0 <= a < o.len() && 0 <= b < o.len() && a != b implies o[a] != o[b] by {
            ranks_total(keys, o[a], o[b], o[a]);
        }
    }
    picked_keeps_values(units, o);
}

/// Together the parts `0..total` of the first `n` units hold what the units hold.
proof fn parts_hold_units(
    times: Seq<Named<Duration>>,
    out: Seq<Seq<Seq<char>>>,
    total: nat,
    n: nat,
)
    requires
        total > 0,
        n <= out.len(),
    ensures
        gathered(|s: int| gathered(handed_to(times, out, total, s), n), total).to_multiset()
            == flat(out.take(n as int)).to_multiset(),
    decreases n,
{
    broadcast use vstd::seq_lib::group_to_multiset_ensures;

    let parts = |s: int| gathered(handed_to(times, out, total, s), n);
    if n == 0 {
        all_empty(parts, total);
        assert(flat(out.take(0)) =~= Seq::<Seq<char>>::empty());
    } else {
        let earlier = |s: int| gathered(handed_to(times, out, total, s), (n - 1) as nat);
        parts_hold_units(times, out, total, (n - 1) as nat);
        let at = part_of(times, out, total, n - 1);
        part_in_range(times, out, total, n - 1);
        assert forall|s: int| 0 <= s < total implies #[trigger] parts(s) == earlier(s) + (if s
            == at {
            out[n - 1]
        } else {
            Seq::empty()
        }) by {
            assert(parts(s) == earlier(s) + handed_to(times, out, total, s)(n - 1));
        }
        one_part_grows(earlier, parts, total, at, out[n - 1]);
        assert(out.take(n as int).drop_last() =~= out.take(n - 1));
        vstd::seq_lib::lemma_multiset_commutative(flat(out.take(n - 1)), out[n - 1]);
    }
}

proof fn all_empty(parts: spec_fn(int) -> Seq<Seq<char>>, total: nat)
    requires
        forall|s: int| #[trigger] parts(s) == Seq::<Seq<char>>::empty(),
    ensures
        gathered(parts, total) == Seq::<Seq<char>>::empty(),
    decreases total,
{
    if total > 0 {
        all_empty(parts, (total - 1) as nat);
        assert(gathered(parts, total) =~= Seq::<Seq<char>>::empty());
    }
}

proof fn one_part_grows(
    p: spec_fn(int) -> Seq<Seq<char>>,
    q: spec_fn(int) -> Seq<Seq<char>>,
    total: nat,
    at: int,
    more: Seq<Seq<char>>,
)
    requires
        forall|s: int|
            0 <= s < total ==> #[trigger] q(s) == p(s) + (if s == at {
                more
            } else {
                Seq::empty()
            }),
    ensures
        0 <= at < total ==> gathered(q, total).to_multiset() == gathered(
            p,
            total,
        ).to_multiset().add(more.to_multiset()),
        !(0 <= at < total) ==> gathered(q, total) == gathered(p, total),
    decreases total,
{
    broadcast use vstd::seq_lib::group_to_multiset_ensures;

    if total > 0 {
        let m = (total - 1) as nat;
        one_part_grows(p, q, m, at, more);
        let x = gathered(p, m);
        let y = gathered(q, m);
        let s = total - 1;
        assert(q(s) == p(s) + (if s == at {
            more
        } else {
            Seq::empty()
        }));
        vstd::seq_lib::lemma_multiset_commutative(x, p(s));
        vstd::seq_lib::lemma_multiset_commutative(y, q(s));
        vstd::seq_lib::lemma_multiset_commutative(p(s), more);
        if s == at {
            assert(gathered(q, total).to_multiset() =~= gathered(p, total).to_multiset().add(
                more.to_multiset(),
            ));
        } else {
            assert(q(s) =~= p(s));
            if 0 <= at < m {
                assert(gathered(q, total).to_multiset() =~= gathered(p, total).to_multiset().add(
                    more.to_multiset(),
                ));
            }
        }
    }
}

/// Every test is in exactly one part, as often as it is listed.
pub proof fn parts_cover_all_tests(
    names: Seq<Seq<char>>,
    times: Seq<Named<Duration>>,
    total: nat,
    pattern: Option<Seq<char>>,
)
    requires
        total > 0,
    ensures
        all_parts(names, times, total, pattern).to_multiset() == names.to_multiset(),
{
    let units = units_of(names, pattern);
    let keys = unit_keys(times, units);
    crate::sort::order_exists(keys);
    let out = handed_out(times, units);
    handed_out_holds_units(times, units);
    flat_reordered(out, units);
    units_hold_names(names, pattern);
    parts_hold_units(times, out, total, out.len());
    assert(out.take(out.len() as int) =~= out);
    crate::gather::gathered_same(
        |s: int| partition_part(names, times, total, pattern, s),
        |s: int| gathered(handed_to(times, out, total, s), out.len()),
        total,
    );
}

/// Time adds up.
pub proof fn all_nanos_add(times: Seq<Named<Duration>>, a: Seq<Seq<char>>, b: Seq<Seq<char>>)
    ensures
        all_nanos(times, a + b) == all_nanos(times, a) + all_nanos(times, b),
    decreases b.len(),
{
    if b.len() == 0 {
        assert(a + b =~= a);
    } else {
        assert((a + b).drop_last() =~= a + b.drop_last());
        all_nanos_add(times, a, b.drop_last());
    }
}

/// The order of the tests does not change how long they take in all.
pub proof fn all_nanos_reordered(times: Seq<Named<Duration>>, a: Seq<Seq<char>>, b: Seq<Seq<char>>)
    requires
        a.to_multiset() == b.to_multiset(),
    ensures
        all_nanos(times, a) == all_nanos(times, b),
{
    let f = |acc: nat, x: Seq<char>| acc + usual_nanos(times, x);
    assert(vstd::seq_lib::commutative_foldl(f));
    vstd::seq_lib::lemma_fold_left_permutation(a, b, f, 0);
    all_nanos_is_fold(times, a, f);
    all_nanos_is_fold(times, b, f);
}

proof fn all_nanos_is_fold(
    times: Seq<Named<Duration>>,
    a: Seq<Seq<char>>,
    f: spec_fn(nat, Seq<char>) -> nat,
)
    requires
        forall|acc: nat, x: Seq<char>| #[trigger] f(acc, x) == acc + usual_nanos(times, x),
    ensures
        all_nanos(times, a) == a.fold_left(0, f),
    decreases a.len(),
{
    if a.len() > 0 {
        all_nanos_is_fold(times, a.drop_last(), f);
    }
}

/// A unit takes no longer than its tests.
proof fn unit_nanos_bound(times: Seq<Named<Duration>>, unit: Seq<Seq<char>>)
    ensures
        unit_nanos(times, unit) matches Some(n) ==> n <= all_nanos(times, unit),
    decreases unit.len(),
{
    if unit.len() > 0 {
        unit_nanos_bound(times, unit.drop_last());
    }
}

/// Fewer units take no longer.
proof fn flat_monotonic(times: Seq<Named<Duration>>, units: Seq<Seq<Seq<char>>>, n: int)
    requires
        0 <= n <= units.len(),
    ensures
        all_nanos(times, flat(units.take(n))) <= all_nanos(times, flat(units)),
    decreases units.len() - n,
{
    if n < units.len() {
        assert(units.take(n + 1).drop_last() =~= units.take(n));
        all_nanos_add(times, flat(units.take(n)), units[n]);
        flat_monotonic(times, units, n + 1);
    } else {
        assert(units.take(n) =~= units);
    }
}

/// A unit takes no longer than all tests.
pub proof fn unit_within_tests(
    times: Seq<Named<Duration>>,
    names: Seq<Seq<char>>,
    pattern: Option<Seq<char>>,
    k: int,
)
    requires
        0 <= k < units_of(names, pattern).len(),
    ensures
        all_nanos(times, units_of(names, pattern)[k]) <= all_nanos(times, names),
{
    let units = units_of(names, pattern);
    units_hold_names(names, pattern);
    all_nanos_reordered(times, flat(units), names);
    flat_monotonic(times, units, k + 1);
    assert(units.take(k + 1).drop_last() =~= units.take(k));
    all_nanos_add(times, flat(units.take(k)), units[k]);
}

/// No part takes longer than all units so far.
proof fn loads_bound(
    times: Seq<Named<Duration>>,
    out: Seq<Seq<Seq<char>>>,
    total: nat,
    n: nat,
    s: int,
)
    requires
        total > 0,
        n <= out.len(),
        0 <= s < total,
    ensures
        loads_after(times, out, total, n)[s] <= all_nanos(times, flat(out.take(n as int))),
    decreases n,
{
    if n > 0 {
        let m = (n - 1) as nat;
        loads_bound(times, out, total, m, s);
        loads_len(times, out, total, m);
        least_bounds(loads_after(times, out, total, m));
        assert(out.take(n as int).drop_last() =~= out.take(n - 1));
        all_nanos_add(times, flat(out.take(n - 1)), out[n - 1]);
        unit_nanos_bound(times, out[n - 1]);
    }
}

/// How long the tests of a unit usually take in all.
fn unit_time(times: &TextMap<Duration>, unit: &Vec<String>) -> (r: Option<u128>)
    requires
        all_nanos(times@, texts(unit@)) <= MAX_NANOS,
    ensures
        match unit_nanos(times@, texts(unit@)) {
            Some(n) => r == Some(n as u128) && n <= MAX_NANOS,
            None => r is None,
        },
{
    let ghost all = texts(unit@);
    let mut r: Option<u128> = None;
    for i in 0..unit.len()
        invariant
            all == texts(unit@),
            all_nanos(times@, all) <= MAX_NANOS,
            match unit_nanos(times@, all.take(i as int)) {
                Some(n) => r == Some(n as u128) && n <= MAX_NANOS,
                None => r is None,
            },
    {
        let ghost now = all.take(i + 1);
        proof {
            assert(now.drop_last() =~= all.take(i as int));
            unit_nanos_bound(times@, now);
            all_nanos_add(times@, now, all.skip(i + 1));
            assert(now + all.skip(i + 1) =~= all);
        }
        if let Some(d) = times.get(unit[i].as_str()) {
            let n: u128 = d.as_nanos();
            r = match r {
                Some(m) => Some(m + n),
                None => Some(n),
            };
        }
    }
    assert(all.take(unit@.len() as int) =~= all);
    proof {
        unit_nanos_bound(times@, all);
    }
    r
}

/// The tests that stay together.
fn make_units(names: &Vec<String>, pattern: Option<&str>) -> (r: core::result::Result<
    Vec<Vec<String>>,
    String,
>)
    ensures
        match pattern {
            None => r matches Ok(u) && lists(u@) == units_of(texts(names@), None),
            Some(p) => match regex_error(p@) {
                Some(e) => r matches Err(s) && s@ == e,
                None => r matches Ok(u) && lists(u@) == units_of(texts(names@), Some(p@)),
            },
        },
{
    let mut units: Vec<Vec<String>> = Vec::new();
    match pattern {
        None => {
            let ghost all = units_of(texts(names@), None);
            for i in 0..names.len()
                invariant
                    all == units_of(texts(names@), None),
                    lists(units@) =~= all.take(i as int),
            {
                let ghost before = units@;
                let mut unit: Vec<String> = Vec::new();
                unit.push(names[i].clone());
                assert(texts(unit@) =~= all[i as int]);
                units.push(unit);
                assert(lists(units@) =~= lists(before).push(all[i as int]));
            }
            assert(lists(units@) =~= all);
            Ok(units)
        },
        Some(p) => match group_tests(names, p) {
            Err(e) => Err(e),
            Ok(groups) => {
                let ghost all = members(group_list(groups@));
                for i in 0..groups.len()
                    invariant
                        all == members(group_list(groups@)),
                        lists(units@) =~= all.take(i as int),
                {
                    let ghost before = units@;
                    units.push(clone_texts(&groups[i].tests));
                    assert(lists(units@) =~= lists(before).push(all[i as int]));
                }
                assert(lists(units@) =~= units_of(texts(names@), Some(p@)));
                Ok(units)
            },
        },
    }
}

/// The first position of a least number.
fn least_index(loads: &Vec<u128>) -> (r: usize)
    requires
        loads@.len() > 0,
    ensures
        r == least(nats(loads@)),
        r < loads@.len(),
{
    let ghost all = nats(loads@);
    let mut r: usize = 0;
    for i in 1..loads.len()
        invariant
            all == nats(loads@),
            1 <= i <= loads@.len(),
            r < i,
            r == least(all.take(i as int)),
    {
        assert(all.take(i + 1).drop_last() =~= all.take(i as int));
        if loads[i] < loads[r] {
            r = i;
        }
    }
    assert(all.take(loads@.len() as int) =~= all);
    r
}

/// Numbers as naturals.
pub open spec fn nats(v: Seq<u128>) -> Seq<nat> {
    Seq::new(v.len(), |i: int| v[i] as nat)
}

/// The parts of the first `n` units.
spec fn parts_after(
    times: Seq<Named<Duration>>,
    out: Seq<Seq<Seq<char>>>,
    total: nat,
    n: nat,
) -> Seq<Seq<Seq<char>>> {
    Seq::new(total, |s: int| gathered(handed_to(times, out, total, s), n))
}

/// Hands out the units.
fn hand_out(units: &Vec<Vec<String>>, times: &TextMap<Duration>, total: usize) -> (r: Vec<
    Vec<String>,
>)
    requires
        total > 0,
        all_nanos(times@, flat(lists(units@))) <= MAX_NANOS,
    ensures
        r@.len() == total,
        forall|s: int|
            0 <= s < total ==> texts((#[trigger] r@[s])@) == gathered(
                handed_to(times@, handed_out(times@, lists(units@)), total as nat, s),
                lists(units@).len(),
            ),
{
    let ghost all = lists(units@);
    let ghost t = times@;
    let mut keys: Vec<UnitKey> = Vec::new();
    for i in 0..units.len()
        invariant
            all == lists(units@),
            t == times@,
            all_nanos(t, flat(all)) <= MAX_NANOS,
            keys@ =~= unit_keys(t, all).take(i as int),
    {
        proof {
            assert(all.take(i + 1).drop_last() =~= all.take(i as int));
            all_nanos_add(t, flat(all.take(i as int)), all[i as int]);
            flat_monotonic(t, all, i + 1);
        }
        keys.push(UnitKey { nanos: unit_time(times, &units[i]) });
    }
    assert(keys@ =~= unit_keys(t, all));
    let order: Vec<usize> = sorted_order(&keys);
    let ghost o = positions(order@);
    let ghost out = handed_out(t, all);
    let mut loads: Vec<u128> = Vec::new();
    let mut parts: Vec<Vec<String>> = Vec::new();
    for s in 0..total
        invariant
            loads@.len() == s,
            parts@.len() == s,
            forall|k: int| 0 <= k < s ==> #[trigger] loads@[k] == 0,
            forall|k: int| 0 <= k < s ==> (#[trigger] parts@[k])@.len() == 0,
    {
        loads.push(0);
        parts.push(Vec::new());
    }
    let mut timed: usize = 0;
    proof {
        handed_out_holds_units(t, all);
        flat_reordered(out, all);
        all_nanos_reordered(t, flat(out), flat(all));
        assert(nats(loads@) =~= loads_after(t, out, total as nat, 0));
        assert(lists(parts@) =~= parts_after(t, out, total as nat, 0)) by {
            assert forall|s: int| 0 <= s < total implies lists(parts@)[s] =~= parts_after(
                t,
                out,
                total as nat,
                0,
            )[s] by {
                assert(parts@[s]@.len() == 0);
            }
        }
    }
    for n in 0..order.len()
        invariant
            total > 0,
            all == lists(units@),
            t == times@,
            o == positions(order@),
            is_order(keys@, o),
            keys@ == unit_keys(t, all),
            o == order_of(keys@),
            out == handed_out(t, all),
            out.len() == order@.len(),
            all_nanos(t, flat(out)) <= MAX_NANOS,
            loads@.len() == total,
            parts@.len() == total,
            nats(loads@) == loads_after(t, out, total as nat, n as nat),
            lists(parts@) == parts_after(t, out, total as nat, n as nat),
            timed == timed_count(t, out, n as nat),
            timed <= n,
    {
        let i: usize = order[n];
        assert(o[n as int] == i && 0 <= o[n as int] < keys@.len());
        assert(out[n as int] == all[i as int]);
        let nanos: Option<u128> = keys[i].nanos;
        proof {
            flat_monotonic(t, out, n + 1);
            assert(out.take(n + 1).drop_last() =~= out.take(n as int));
            all_nanos_add(t, flat(out.take(n as int)), out[n as int]);
            unit_nanos_bound(t, out[n as int]);
            part_in_range(t, out, total as nat, n as int);
        }
        let at: usize = match nanos {
            Some(_) => least_index(&loads),
            None => (n - timed) % total,
        };
        let ghost before_loads = loads@;
        let ghost before_parts = parts@;
        if let Some(d) = nanos {
            proof {
                loads_bound(t, out, total as nat, n as nat, at as int);
                assert(nats(before_loads)[at as int] == before_loads[at as int]);
            }
            let load: u128 = loads[at] + d;
            loads.set(at, load);
            timed += 1;
            assert(nats(loads@) =~= nats(before_loads).update(
                at as int,
                nats(before_loads)[at as int] + d as nat,
            ));
        }
        let mut part: Vec<String> = Vec::new();
        core::mem::swap(&mut part, &mut parts[at]);
        let ghost earlier = part@;
        append_texts(&mut part, clone_texts(&units[i]));
        let ghost grown = part@;
        parts[at] = part;
        proof {
            let now = parts_after(t, out, total as nat, (n + 1) as nat);
            let then = parts_after(t, out, total as nat, n as nat);
            assert(at == part_of(t, out, total as nat, n as int));
            assert forall|s: int| 0 <= s < total implies lists(parts@)[s] =~= #[trigger] now[s] by {
                assert(now[s] == then[s] + handed_to(t, out, total as nat, s)(n as int));
                assert(then[s] == lists(before_parts)[s]);
                if s == at {
                    assert(texts(grown) == texts(earlier) + all[i as int]);
                    assert(lists(parts@)[s] == texts(grown));
                    assert(texts(earlier) == then[s]);
                } else {
                    assert(parts@[s] == before_parts[s]);
                }
            }
            assert(lists(parts@) =~= now);
        }
    }
    proof {
        assert forall|s: int| 0 <= s < total implies texts((#[trigger] parts@[s])@) == gathered(
            handed_to(t, out, total as nat, s),
            all.len(),
        ) by {
            assert(lists(parts@)[s] == parts_after(t, out, total as nat, all.len())[s]);
        }
    }
    parts
}

/// Divides tests into `total` parts that take about the same time. Tests whose duration is known
/// go, the longest first, to the part that takes least so far; the others go to the parts in
/// turn. Tests of one group stay together. An error of the pattern is given as its text.
pub fn partition_tests_with_grouping(
    names: &Vec<String>,
    times: &TextMap<Duration>,
    total: usize,
    pattern: Option<&str>,
) -> (r: core::result::Result<Vec<Vec<String>>, String>)
    requires
        all_nanos(times@, texts(names@)) <= MAX_NANOS,
    ensures
        ({
            let p = match pattern {
                Some(p) => Some(p@),
                None => None,
            };
            if p is Some && regex_error(p->0) is Some {
                r matches Err(s) && s@ == regex_error(p->0)->0
            } else {
                r matches Ok(v) && v@.len() == total && forall|s: int|
                    0 <= s < total ==> texts((#[trigger] v@[s])@) == partition_part(
                        texts(names@),
                        times@,
                        total as nat,
                        p,
                        s,
                    )
            }
        }),
{
    let ghost p = match pattern {
        Some(p) => Some(p@),
        None => None,
    };
    match make_units(names, pattern) {
        Err(e) => Err(e),
        Ok(units) => {
            if total == 0 {
                return Ok(Vec::new());
            }
            proof {
                let u = units_of(texts(names@), p);
                assert(lists(units@) == u);
                units_hold_names(texts(names@), p);
                all_nanos_reordered(times@, flat(u), texts(names@));
                crate::sort::order_exists(unit_keys(times@, u));
                handed_out_holds_units(times@, u);
            }
            Ok(hand_out(&units, times, total))
        },
    }
}

/// The parts depend on which tests there are, not on the order in which they are listed, where
/// the list is sorted first.
pub proof fn parts_ignore_order(
    a: Seq<Seq<char>>,
    b: Seq<Seq<char>>,
    times: Seq<Named<Duration>>,
    total: nat,
    pattern: Option<Seq<char>>,
    s: int,
)
    requires
        a.to_multiset() == b.to_multiset(),
    ensures
        partition_part(sorted_texts(a), times, total, pattern, s) == partition_part(
            sorted_texts(b),
            times,
            total,
            pattern,
            s,
        ),
{
    sorted_texts_ascend(a);
    crate::sort::sorted_texts_is(b, sorted_texts(a));
}

/// Tests of one group are in the same part.
pub proof fn groups_stay_together(
    names: Seq<Seq<char>>,
    times: Seq<Named<Duration>>,
    total: nat,
    pattern: Seq<char>,
    s: int,
    a: Seq<char>,
    b: Seq<char>,
)
    requires
        names.contains(a),
        names.contains(b),
        group_key(pattern, a) == group_key(pattern, b),
        partition_part(names, times, total, Some(pattern), s).contains(a),
    ensures
        partition_part(names, times, total, Some(pattern), s).contains(b),
{
    let groups = groups_of(pattern, names);
    let units = units_of(names, Some(pattern));
    let keys = unit_keys(times, units);
    let o = order_of(keys);
    let out = handed_out(times, units);
    let part = handed_to(times, out, total, s);
    crate::sort::order_exists(keys);
    groups_follow_keys(pattern, names);
    let x = choose|x: int| 0 <= x < gathered(part, out.len()).len() && gathered(part, out.len())[x]
        == a;
    let (n, m) = crate::gather::gathered_element(part, out.len(), x);
    assert(out[n] == units[o[n]]);
    assert(0 <= o[n] < units.len());
    let g = groups[o[n]];
    assert(g.1.contains(a)) by {
        assert(g.1[m] == a);
    }
    assert(in_group(groups, g.0, a));
    assert(in_group(groups, group_key(pattern, b), b));
    let i = choose|i: int|
        0 <= i < groups.len() && (#[trigger] groups[i]).0 == group_key(pattern, b)
            && groups[i].1.contains(b);
    crate::text::order::text_lt_irreflexive(g.0);
    if i < o[n] {
        assert(text_lt(groups[i].0, groups[o[n]].0));
    } else if o[n] < i {
        assert(text_lt(groups[o[n]].0, groups[i].0));
    }
    let k = choose|k: int| 0 <= k < g.1.len() && g.1[k] == b;
    let y = crate::gather::gathered_holds(part, out.len(), n, k);
    assert(gathered(part, out.len())[y] == b);
}

} // verus!
