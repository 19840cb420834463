//! How even the parts are that tests are divided into.
//!
//! Where weights are handed out in descending order, each to the part that weighs least so far, no
//! part weighs more than four thirds of the heaviest part of any other division.

use vstd::prelude::*;

use crate::collection::{has_key, Named};
use crate::gather::gathered;
use crate::grouping::{group_key, groups_of, with_member, GroupList};
use crate::partition::{all_nanos, all_nanos_add, handed_out, handed_to, least, least_bounds, loads_after, loads_len, part_in_range, part_of, partition_part, timed_bound, timed_count, unit_keys, unit_nanos, units_of, UnitKey};
use crate::sort::{is_order, order_of, picked, picked_keeps_values, ranks_total, SortKey};
use crate::time::{Duration, MAX_NANOS};

verus! {

/// The weight of the first `n` things.
pub open spec fn weight_of(w: Seq<nat>, n: int) -> nat
    decreases n,
{
    if n <= 0 {
        0
    } else {
        weight_of(w, n - 1) + w[n - 1]
    }
}

/// The weight of those of the first `n` things that are in the part `s`, where `at` tells the part
/// of each.
pub open spec fn part_weight(w: Seq<nat>, at: Seq<int>, n: int, s: int) -> nat
    decreases n,
{
    if n <= 0 {
        0
    } else {
        part_weight(w, at, n - 1, s) + if at[n - 1] == s {
            w[n - 1]
        } else {
            0
        }
    }
}

/// The weight of the first `m` parts.
spec fn parts_weight(w: Seq<nat>, at: Seq<int>, n: int, m: nat) -> nat
    decreases m,
{
    if m == 0 {
        0
    } else {
        parts_weight(w, at, n, (m - 1) as nat) + part_weight(w, at, n, m - 1)
    }
}

/// One more thing adds to the weight of one part.
proof fn parts_weight_grows(w: Seq<nat>, at: Seq<int>, n: int, m: nat)
    requires
        n > 0,
    ensures
        parts_weight(w, at, n, m) == parts_weight(w, at, n - 1, m) + if 0 <= at[n - 1] < m {
            w[n - 1]
        } else {
            0
        },
    decreases m,
{
    if m > 0 {
        parts_weight_grows(w, at, n, (m - 1) as nat);
    }
}

/// The parts weigh what all things weigh.
proof fn parts_weigh_all(w: Seq<nat>, at: Seq<int>, n: int, m: nat)
    requires
        n >= 0,
        forall|i: int| 0 <= i < n ==> 0 <= #[trigger] at[i] < m,
    ensures
        parts_weight(w, at, n, m) == weight_of(w, n),
    decreases n,
{
    if n > 0 {
        parts_weigh_all(w, at, n - 1, m);
        parts_weight_grows(w, at, n, m);
        assert(0 <= at[n - 1] < m);
    } else {
        nothing_weighs_nothing(w, at, m);
    }
}

proof fn nothing_weighs_nothing(w: Seq<nat>, at: Seq<int>, m: nat)
    ensures
        parts_weight(w, at, 0, m) == 0,
    decreases m,
{
    if m > 0 {
        nothing_weighs_nothing(w, at, (m - 1) as nat);
    }
}

/// Parts that weigh no less than a bound weigh no less than so many times the bound.
proof fn parts_weigh_at_least(w: Seq<nat>, at: Seq<int>, n: int, m: nat, bound: nat)
    requires
        forall|s: int| 0 <= s < m ==> bound <= #[trigger] part_weight(w, at, n, s),
    ensures
        m * bound <= parts_weight(w, at, n, m),
    decreases m,
{
    if m > 0 {
        parts_weigh_at_least(w, at, n, (m - 1) as nat, bound);
        assert(bound <= part_weight(w, at, n, m - 1));
        assert(m * bound == (m - 1) * bound + bound) by (nonlinear_arith);
    } else {
        assert(m * bound == 0) by (nonlinear_arith)
            requires
                m == 0,
        ;
    }
}

/// Parts that weigh no more than a bound weigh no more than so many times the bound.
proof fn parts_weigh_at_most(w: Seq<nat>, at: Seq<int>, n: int, m: nat, bound: nat)
    requires
        forall|s: int| 0 <= s < m ==> #[trigger] part_weight(w, at, n, s) <= bound,
    ensures
        parts_weight(w, at, n, m) <= m * bound,
    decreases m,
{
    if m > 0 {
        parts_weigh_at_most(w, at, n, (m - 1) as nat, bound);
        assert(part_weight(w, at, n, m - 1) <= bound);
        assert(m * bound == (m - 1) * bound + bound) by (nonlinear_arith);
    } else {
        assert(m * bound == 0) by (nonlinear_arith)
            requires
                m == 0,
        ;
    }
}

/// Fewer things weigh no more.
proof fn part_weight_grows(w: Seq<nat>, at: Seq<int>, n: int, k: int, s: int)
    requires
        0 <= n <= k,
    ensures
        part_weight(w, at, n, s) <= part_weight(w, at, k, s),
    decreases k,
{
    if n < k {
        part_weight_grows(w, at, n, k - 1, s);
    }
}

/// How many places a weight takes up: two where it leaves no room for another one.
spec fn places(w: Seq<nat>, room: nat) -> Seq<nat> {
    Seq::new(
        w.len(),
        |i: int|
            if w[i] > room {
                2
            } else {
                1
            },
    )
}

/// A part with one place taken or none weighs no more than the room.
proof fn few_places_weigh_little(w: Seq<nat>, at: Seq<int>, n: int, s: int, room: nat)
    requires
        0 <= n <= w.len(),
    ensures
        part_weight(places(w, room), at, n, s) == 0 ==> part_weight(w, at, n, s) == 0,
        part_weight(places(w, room), at, n, s) <= 1 ==> part_weight(w, at, n, s) <= room,
    decreases n,
{
    if n > 0 {
        few_places_weigh_little(w, at, n - 1, s, room);
    }
}

/// A part with more places taken weighs more, where each weight is more than a third of the bound.
proof fn many_places_weigh_much(
    w: Seq<nat>,
    at: Seq<int>,
    n: int,
    s: int,
    room: nat,
    last: nat,
    bound: nat,
)
    requires
        0 <= n <= w.len(),
        forall|i: int| 0 <= i < n ==> last <= #[trigger] w[i],
        3 * last > bound,
        room + last == bound,
    ensures
        ({
            let taken = part_weight(places(w, room), at, n, s);
            let weight = part_weight(w, at, n, s);
            &&& taken >= 1 ==> weight >= last
            &&& taken >= 2 ==> weight >= 2 * last || weight > room
            &&& taken >= 3 ==> weight > bound
        }),
    decreases n,
{
    if n > 0 {
        many_places_weigh_much(w, at, n - 1, s, room, last, bound);
        assert(last <= w[n - 1]);
    }
}

/// Where weights came in descending order and each part weighs at least `low`, a part with `low`
/// and the next weight is no more than four thirds of the heaviest part of another division of the
/// same weights.
proof fn next_weight_fits(
    w: Seq<nat>,
    at: Seq<int>,
    other: Seq<int>,
    m: nat,
    n: int,
    low: nat,
    bound: nat,
)
    requires
        m > 0,
        0 <= n < w.len(),
        forall|i: int| 0 <= i <= n ==> w[n] <= #[trigger] w[i],
        forall|i: int| 0 <= i < n ==> 0 <= #[trigger] at[i] < m,
        forall|i: int| 0 <= i <= n ==> 0 <= #[trigger] other[i] < m,
        forall|s: int| 0 <= s < m ==> #[trigger] part_weight(w, other, n + 1, s) <= bound,
        forall|s: int| 0 <= s < m ==> low <= #[trigger] part_weight(w, at, n, s),
    ensures
        3 * (low + w[n]) <= 4 * bound,
{
    let last = w[n];
    parts_weigh_all(w, at, n, m);
    parts_weigh_all(w, other, n + 1, m);
    parts_weigh_at_least(w, at, n, m, low);
    parts_weigh_at_most(w, other, n + 1, m, bound);
    assert(m * low + last <= m * bound);
    assert(low <= bound) by (nonlinear_arith)
        requires
            m > 0,
            m * low + last <= m * bound,
            last >= 0,
    ;
    if 3 * last > bound && low + last > bound {
        assert(part_weight(w, other, n + 1, other[n]) <= bound);
        assert(last <= bound);
        let room = (bound - last) as nat;
        let x = places(w, room);
        assert forall|s: int| 0 <= s < m implies 2 <= #[trigger] part_weight(x, at, n, s) by {
            few_places_weigh_little(w, at, n, s, room);
            assert(low <= part_weight(w, at, n, s));
        }
        assert forall|s: int| 0 <= s < m implies #[trigger] part_weight(x, other, n + 1, s)
            <= 2 by {
            many_places_weigh_much(w, other, n + 1, s, room, last, bound);
            assert(part_weight(w, other, n + 1, s) <= bound);
        }
        parts_weigh_all(x, at, n, m);
        parts_weigh_all(x, other, n + 1, m);
        parts_weigh_at_least(x, at, n, m, 2);
        parts_weigh_at_most(x, other, n + 1, m, 2);
        assert(weight_of(x, n + 1) == weight_of(x, n) + x[n]);
        assert(false);
    }
}

/// How long units usually take; nothing where that is not known.
spec fn unit_weights(times: Seq<Named<Duration>>, out: Seq<Seq<Seq<char>>>) -> Seq<nat> {
    Seq::new(out.len(), |i: int| all_nanos(times, out[i]))
}

/// The parts that units go to.
spec fn unit_parts(times: Seq<Named<Duration>>, out: Seq<Seq<Seq<char>>>, total: nat) -> Seq<int> {
    Seq::new(out.len(), |i: int| part_of(times, out, total, i))
}

/// A unit takes as long as its tests.
proof fn unit_takes_its_tests(times: Seq<Named<Duration>>, unit: Seq<Seq<char>>)
    ensures
        all_nanos(times, unit) == (match unit_nanos(times, unit) {
            Some(n) => n,
            None => 0,
        }),
    decreases unit.len(),
{
    if unit.len() > 0 {
        unit_takes_its_tests(times, unit.drop_last());
    }
}

/// The first least number is a least one.
proof fn least_is_least(loads: Seq<nat>, s: int)
    requires
        0 <= s < loads.len(),
    ensures
        0 <= least(loads) < loads.len(),
        loads[least(loads)] <= loads[s],
    decreases loads.len(),
{
    least_bounds(loads);
    if loads.len() > 1 {
        let before = loads.drop_last();
        least_bounds(before);
        assert(before[least(before)] == loads[least(before)]);
        if s < before.len() {
            least_is_least(before, s);
            assert(before[s] == loads[s]);
        }
    }
}

/// What the parts take is what their units take.
proof fn loads_are_weights(
    times: Seq<Named<Duration>>,
    out: Seq<Seq<Seq<char>>>,
    total: nat,
    n: int,
    s: int,
)
    requires
        0 <= s < total,
        0 <= n <= out.len(),
    ensures
        loads_after(times, out, total, n as nat).len() == total,
        loads_after(times, out, total, n as nat)[s] == part_weight(
            unit_weights(times, out),
            unit_parts(times, out, total),
            n,
            s,
        ),
        all_nanos(times, gathered(handed_to(times, out, total, s), n as nat)) == part_weight(
            unit_weights(times, out),
            unit_parts(times, out, total),
            n,
            s,
        ),
    decreases n,
{
    loads_len(times, out, total, n as nat);
    if n > 0 {
        loads_are_weights(times, out, total, n - 1, s);
        let before = loads_after(times, out, total, (n - 1) as nat);
        least_is_least(before, s);
        unit_takes_its_tests(times, out[n - 1]);
        let part = handed_to(times, out, total, s);
        all_nanos_add(times, gathered(part, (n - 1) as nat), part(n - 1));
    }
}

/// No part takes longer than four thirds of the longest part of another division of the units.
proof fn units_are_balanced(
    times: Seq<Named<Duration>>,
    out: Seq<Seq<Seq<char>>>,
    total: nat,
    other: Seq<int>,
    longest: nat,
    n: int,
    s: int,
)
    requires
        0 <= s < total,
        0 <= n <= out.len(),
        other.len() == out.len(),
        forall|i: int| 0 <= i < other.len() ==> 0 <= #[trigger] other[i] < total,
        forall|q: int|
            0 <= q < total ==> #[trigger] part_weight(
                unit_weights(times, out),
                other,
                out.len() as int,
                q,
            ) <= longest,
        forall|i: int, j: int|
            0 <= i <= j < out.len() ==> #[trigger] unit_weights(times, out)[j]
                <= #[trigger] unit_weights(times, out)[i],
    ensures
        3 * part_weight(unit_weights(times, out), unit_parts(times, out, total), n, s) <= 4
            * longest,
    decreases n,
{
    let w = unit_weights(times, out);
    let at = unit_parts(times, out, total);
    if n > 0 {
        units_are_balanced(times, out, total, other, longest, n - 1, s);
        unit_takes_its_tests(times, out[n - 1]);
        if at[n - 1] == s && unit_nanos(times, out[n - 1]) is Some {
            let loads = loads_after(times, out, total, (n - 1) as nat);
            loads_are_weights(times, out, total, n - 1, s);
            let low = loads[s];
            assert forall|q: int| 0 <= q < total implies low <= #[trigger] part_weight(
                w,
                at,
                n - 1,
                q,
            ) by {
                loads_are_weights(times, out, total, n - 1, q);
                least_is_least(loads, q);
            }
            assert forall|q: int| 0 <= q < total implies #[trigger] part_weight(w, other, n, q)
                <= longest by {
                part_weight_grows(w, other, n, out.len() as int, q);
                assert(part_weight(w, other, out.len() as int, q) <= longest);
            }
            assert forall|i: int| 0 <= i < n - 1 implies 0 <= #[trigger] at[i] < total by {
                part_in_range(times, out, total, i);
            }
            next_weight_fits(w, at, other, total, n - 1, low, longest);
        }
    }
}

/// Units are handed out the longest first.
proof fn handed_out_descends(times: Seq<Named<Duration>>, units: Seq<Seq<Seq<char>>>, i: int, j: int)
    requires
        forall|k: int| 0 <= k < units.len() ==> all_nanos(times, #[trigger] units[k]) <= MAX_NANOS,
        0 <= i <= j < handed_out(times, units).len(),
    ensures
        all_nanos(times, handed_out(times, units)[j]) <= all_nanos(
            times,
            handed_out(times, units)[i],
        ),
{
    let keys = unit_keys(times, units);
    let o = order_of(keys);
    crate::sort::order_exists(keys);
    assert(is_order(keys, o));
    if i < j {
        let a = o[i];
        let b = o[j];
        assert(0 <= a < units.len() && 0 <= b < units.len());
        ranks_total(keys, a, b, a);
        unit_takes_its_tests(times, units[a]);
        unit_takes_its_tests(times, units[b]);
        assert(all_nanos(times, units[a]) <= MAX_NANOS && all_nanos(times, units[b]) <= MAX_NANOS);
        UnitKey::weak_order(&keys[a], &keys[b], &keys[a]);
        assert(!keys[b].before(&keys[a]));
    }
}

/// The sum of numbers.
spec fn sum(x: Seq<nat>) -> nat
    decreases x.len(),
{
    if x.len() == 0 {
        0
    } else {
        sum(x.drop_last()) + x.last()
    }
}

/// The sum does not depend on the order.
proof fn sum_reordered(a: Seq<nat>, b: Seq<nat>)
    requires
        a.to_multiset() == b.to_multiset(),
    ensures
        sum(a) == sum(b),
{
    let f = |acc: nat, x: nat| acc + x;
    assert(vstd::seq_lib::commutative_foldl(f));
    vstd::seq_lib::lemma_fold_left_permutation(a, b, f, 0);
    sum_is_fold(a, f);
    sum_is_fold(b, f);
}

proof fn sum_is_fold(a: Seq<nat>, f: spec_fn(nat, nat) -> nat)
    requires
        forall|acc: nat, x: nat| #[trigger] f(acc, x) == acc + x,
    ensures
        sum(a) == a.fold_left(0, f),
    decreases a.len(),
{
    if a.len() > 0 {
        sum_is_fold(a.drop_last(), f);
    }
}

/// A number in front adds to the sum.
proof fn sum_cons(x: nat, rest: Seq<nat>)
    ensures
        sum(seq![x] + rest) == x + sum(rest),
    decreases rest.len(),
{
    let all = seq![x] + rest;
    if rest.len() == 0 {
        assert(all.drop_last() =~= Seq::<nat>::empty());
        assert(sum(all.drop_last()) == 0 && sum(rest) == 0);
        assert(all.last() == x);
    } else {
        assert(all.drop_last() =~= seq![x] + rest.drop_last());
        assert(all.last() == rest.last());
        sum_cons(x, rest.drop_last());
    }
}

/// The weights of those in a part, in their places.
spec fn in_part(w: Seq<nat>, at: Seq<int>, s: int) -> Seq<nat> {
    Seq::new(
        w.len(),
        |i: int|
            if at[i] == s {
                w[i]
            } else {
                0
            },
    )
}

/// A part weighs the sum of the weights in it.
proof fn part_weight_is_sum(w: Seq<nat>, at: Seq<int>, s: int, n: int)
    requires
        0 <= n <= w.len(),
    ensures
        part_weight(w, at, n, s) == sum(in_part(w, at, s).take(n)),
    decreases n,
{
    if n > 0 {
        part_weight_is_sum(w, at, s, n - 1);
        assert(in_part(w, at, s).take(n).drop_last() =~= in_part(w, at, s).take(n - 1));
    }
}

/// A division of the units is one of the units as they are handed out.
proof fn division_of_handed_out(
    times: Seq<Named<Duration>>,
    units: Seq<Seq<Seq<char>>>,
    at: Seq<int>,
    s: int,
)
    requires
        at.len() == units.len(),
    ensures
        ({
            let out = handed_out(times, units);
            let o = order_of(unit_keys(times, units));
            &&& out.len() == units.len()
            &&& part_weight(unit_weights(times, out), picked(at, o), out.len() as int, s)
                == part_weight(unit_weights(times, units), at, units.len() as int, s)
        }),
{
    let keys = unit_keys(times, units);
    let o = order_of(keys);
    let out = handed_out(times, units);
    crate::sort::order_exists(keys);
    assert(o.no_duplicates()) by {
        assert forall|a: int, b: int|
            0 <= a < o.len() && 0 <= b < o.len() && a != b implies o[a] != o[b] by {
            ranks_total(keys, o[a], o[b], o[a]);
        }
    }
    let w = unit_weights(times, units);
    let v = unit_weights(times, out);
    let x = in_part(w, at, s);
    let y = in_part(v, picked(at, o), s);
    picked_keeps_values(x, o);
    assert(y =~= picked(x, o));
    sum_reordered(y, x);
    part_weight_is_sum(w, at, s, w.len() as int);
    part_weight_is_sum(v, picked(at, o), s, v.len() as int);
    assert(x.take(w.len() as int) =~= x);
    assert(y.take(v.len() as int) =~= y);
}

/// How long the tests in the part `s` usually take, where `at` tells the part of each test.
pub open spec fn divided_nanos(
    times: Seq<Named<Duration>>,
    names: Seq<Seq<char>>,
    at: Seq<int>,
    s: int,
) -> nat
    decreases names.len(),
{
    if names.len() == 0 {
        0
    } else {
        divided_nanos(times, names.drop_last(), at.drop_last(), s) + if at.last() == s {
            all_nanos(times, seq![names.last()])
        } else {
            0
        }
    }
}

/// The part of a group: that of one of its tests.
spec fn part_of_key(
    pattern: Seq<char>,
    names: Seq<Seq<char>>,
    at: Seq<int>,
    key: Seq<char>,
) -> int {
    at[choose|i: int| 0 <= i < names.len() && group_key(pattern, #[trigger] names[i]) == key]
}

/// How long the groups in a part usually take.
spec fn grouped_nanos(
    times: Seq<Named<Duration>>,
    groups: GroupList,
    part: spec_fn(Seq<char>) -> int,
    s: int,
) -> nat
    decreases groups.len(),
{
    if groups.len() == 0 {
        0
    } else {
        grouped_nanos(times, groups.drop_first(), part, s) + if part(groups[0].0) == s {
            all_nanos(times, groups[0].1)
        } else {
            0
        }
    }
}

/// One more test adds to the part of its group.
proof fn grouped_nanos_grows(
    times: Seq<Named<Duration>>,
    groups: GroupList,
    part: spec_fn(Seq<char>) -> int,
    s: int,
    key: Seq<char>,
    name: Seq<char>,
)
    ensures
        grouped_nanos(times, with_member(groups, key, name), part, s) == grouped_nanos(
            times,
            groups,
            part,
            s,
        ) + if part(key) == s {
            all_nanos(times, seq![name])
        } else {
            0
        },
    decreases groups.len(),
{
    let w = with_member(groups, key, name);
    if groups.len() == 0 || crate::text::order::text_lt(key, groups[0].0) {
        assert(w.drop_first() =~= groups);
    } else if groups[0].0 == key {
        assert(w.drop_first() =~= groups.drop_first());
        all_nanos_add(times, groups[0].1, seq![name]);
        assert(groups[0].1.push(name) =~= groups[0].1 + seq![name]);
    } else {
        assert(w.drop_first() =~= with_member(groups.drop_first(), key, name));
        grouped_nanos_grows(times, groups.drop_first(), part, s, key, name);
    }
}

/// The groups in a part take what the tests in it take, where the tests of a group are together.
proof fn groups_take_their_tests(
    times: Seq<Named<Duration>>,
    pattern: Seq<char>,
    names: Seq<Seq<char>>,
    at: Seq<int>,
    part: spec_fn(Seq<char>) -> int,
    s: int,
)
    requires
        at.len() == names.len(),
        forall|i: int|
            0 <= i < names.len() ==> part(group_key(pattern, #[trigger] names[i])) == at[i],
    ensures
        grouped_nanos(times, groups_of(pattern, names), part, s) == divided_nanos(
            times,
            names,
            at,
            s,
        ),
    decreases names.len(),
{
    if names.len() > 0 {
        let fewer = names.drop_last();
        assert forall|i: int| 0 <= i < fewer.len() implies part(
            group_key(pattern, #[trigger] fewer[i]),
        ) == at.drop_last()[i] by {
            assert(fewer[i] == names[i]);
        }
        groups_take_their_tests(times, pattern, fewer, at.drop_last(), part, s);
        assert(part(group_key(pattern, names[names.len() - 1])) == at.last());
        grouped_nanos_grows(
            times,
            groups_of(pattern, fewer),
            part,
            s,
            group_key(pattern, names.last()),
            names.last(),
        );
    }
}

/// The groups in a part weigh what they take.
proof fn groups_weigh(
    times: Seq<Named<Duration>>,
    groups: GroupList,
    part: spec_fn(Seq<char>) -> int,
    s: int,
)
    ensures
        sum(
            Seq::new(
                groups.len(),
                |i: int|
                    if part(groups[i].0) == s {
                        all_nanos(times, groups[i].1)
                    } else {
                        0
                    },
            ),
        ) == grouped_nanos(times, groups, part, s),
    decreases groups.len(),
{
    let f = |g: GroupList|
        Seq::new(
            g.len(),
            |i: int|
                if part(g[i].0) == s {
                    all_nanos(times, g[i].1)
                } else {
                    0nat
                },
        );
    if groups.len() > 0 {
        groups_weigh(times, groups.drop_first(), part, s);
        let x = f(groups)[0];
        assert(f(groups) =~= seq![x] + f(groups.drop_first()));
        sum_cons(x, f(groups.drop_first()));
    }
}

/// A division of the tests that keeps groups together, as one of the units.
spec fn unit_division(names: Seq<Seq<char>>, pattern: Option<Seq<char>>, at: Seq<int>) -> Seq<int> {
    match pattern {
        None => at,
        Some(p) => Seq::new(
            groups_of(p, names).len(),
            |i: int| part_of_key(p, names, at, groups_of(p, names)[i].0),
        ),
    }
}

/// The units in a part weigh what the tests in it take.
proof fn unit_division_is(
    times: Seq<Named<Duration>>,
    names: Seq<Seq<char>>,
    pattern: Option<Seq<char>>,
    at: Seq<int>,
    total: nat,
    s: int,
)
    requires
        at.len() == names.len(),
        forall|i: int| 0 <= i < at.len() ==> 0 <= #[trigger] at[i] < total,
        pattern matches Some(p) ==> forall|i: int, j: int|
            0 <= i < names.len() && 0 <= j < names.len() && group_key(p, #[trigger] names[i])
                == group_key(p, #[trigger] names[j]) ==> at[i] == at[j],
    ensures
        ({
            let units = units_of(names, pattern);
            let d = unit_division(names, pattern, at);
            &&& d.len() == units.len()
            &&& forall|i: int| 0 <= i < d.len() ==> 0 <= #[trigger] d[i] < total
            &&& part_weight(unit_weights(times, units), d, units.len() as int, s)
                == divided_nanos(times, names, at, s)
        }),
{
    let units = units_of(names, pattern);
    let d = unit_division(names, pattern, at);
    let w = unit_weights(times, units);
    part_weight_is_sum(w, d, s, w.len() as int);
    let x = in_part(w, d, s);
    assert(x.take(w.len() as int) =~= x);
    match pattern {
        None => {
            single_units_take(times, names, at, s);
            assert(w =~= Seq::new(names.len(), |i: int| all_nanos(times, seq![names[i]])));
        },
        Some(p) => {
            let groups = groups_of(p, names);
            let part = |key: Seq<char>| part_of_key(p, names, at, key);
            assert forall|i: int| 0 <= i < names.len() implies part(
                group_key(p, #[trigger] names[i]),
            ) == at[i] by {
                let key = group_key(p, names[i]);
                let j = choose|j: int|
                    0 <= j < names.len() && group_key(p, #[trigger] names[j]) == key;
                assert(group_key(p, names[j]) == group_key(p, names[i]));
            }
            groups_take_their_tests(times, p, names, at, part, s);
            groups_weigh(times, groups, part, s);
            assert(x =~= Seq::new(
                groups.len(),
                |i: int|
                    if part(groups[i].0) == s {
                        all_nanos(times, groups[i].1)
                    } else {
                        0
                    },
            ));
            assert forall|i: int| 0 <= i < d.len() implies 0 <= #[trigger] d[i] < total by {
                crate::grouping::groups_have_members(p, names, i);
                let j = choose|j: int|
                    0 <= j < names.len() && group_key(p, #[trigger] names[j]) == groups[i].0;
                assert(0 <= at[j] < total);
            }
        },
    }
}

/// Tests that are units by themselves weigh what they take.
proof fn single_units_take(
    times: Seq<Named<Duration>>,
    names: Seq<Seq<char>>,
    at: Seq<int>,
    s: int,
)
    requires
        at.len() == names.len(),
    ensures
        sum(in_part(Seq::new(names.len(), |i: int| all_nanos(times, seq![names[i]])), at, s))
            == divided_nanos(times, names, at, s),
    decreases names.len(),
{
    let f = |n: Seq<Seq<char>>| Seq::new(n.len(), |i: int| all_nanos(times, seq![n[i]]));
    if names.len() > 0 {
        let fewer = names.drop_last();
        single_units_take(times, fewer, at.drop_last(), s);
        assert(in_part(f(names), at, s).drop_last() =~= in_part(f(fewer), at.drop_last(), s));
    }
}

/// No part takes longer than four thirds of the longest part of any other division of the same
/// tests into as many parts, groups kept together.
pub proof fn parts_are_balanced(
    names: Seq<Seq<char>>,
    times: Seq<Named<Duration>>,
    total: nat,
    pattern: Option<Seq<char>>,
    at: Seq<int>,
    longest: nat,
    s: int,
)
    requires
        all_nanos(times, names) <= MAX_NANOS,
        at.len() == names.len(),
        forall|i: int| 0 <= i < at.len() ==> 0 <= #[trigger] at[i] < total,
        pattern matches Some(p) ==> forall|i: int, j: int|
            0 <= i < names.len() && 0 <= j < names.len() && group_key(p, #[trigger] names[i])
                == group_key(p, #[trigger] names[j]) ==> at[i] == at[j],
        forall|q: int|
            0 <= q < total ==> #[trigger] divided_nanos(times, names, at, q) <= longest,
        0 <= s < total,
    ensures
        3 * all_nanos(times, partition_part(names, times, total, pattern, s)) <= 4 * longest,
{
    let units = units_of(names, pattern);
    let keys = unit_keys(times, units);
    let o = order_of(keys);
    let out = handed_out(times, units);
    let d = unit_division(names, pattern, at);
    let other = picked(d, o);
    unit_division_is(times, names, pattern, at, total, s);
    division_of_handed_out(times, units, d, s);
    crate::sort::order_exists(keys);
    assert forall|q: int| 0 <= q < total implies #[trigger] part_weight(
        unit_weights(times, out),
        other,
        out.len() as int,
        q,
    ) <= longest by {
        unit_division_is(times, names, pattern, at, total, q);
        division_of_handed_out(times, units, d, q);
        assert(divided_nanos(times, names, at, q) <= longest);
    }
    assert forall|i: int| 0 <= i < other.len() implies 0 <= #[trigger] other[i] < total by {
        assert(0 <= o[i] < keys.len());
        assert(0 <= d[o[i]] < total);
    }
    assert forall|k: int| 0 <= k < units.len() implies all_nanos(times, #[trigger] units[k])
        <= MAX_NANOS by {
        crate::partition::unit_within_tests(times, names, pattern, k);
    }
    assert forall|i: int, j: int| 0 <= i <= j < out.len() implies #[trigger] unit_weights(
        times,
        out,
    )[j] <= #[trigger] unit_weights(times, out)[i] by {
        handed_out_descends(times, units, i, j);
    }
    units_are_balanced(times, out, total, other, longest, out.len() as int, s);
    loads_are_weights(times, out, total, out.len() as int, s);
}

/// How many of the numbers below `n` leave the remainder `s`.
spec fn remainders(n: int, m: nat, s: int) -> nat
    decreases n,
{
    if n <= 0 {
        0
    } else {
        remainders(n - 1, m, s) + if (n - 1) % m as int == s {
            1nat
        } else {
            0
        }
    }
}

/// Every remainder comes equally often, the smaller ones once more where it does not come out even.
proof fn remainders_are(n: int, m: nat, s: int)
    requires
        n >= 0,
        0 <= s < m,
    ensures
        remainders(n, m, s) == n / m as int + if s < n % m as int {
            1int
        } else {
            0
        },
    decreases n,
{
    let d = m as int;
    if n > 0 {
        remainders_are(n - 1, m, s);
        let q = (n - 1) / d;
        let r = (n - 1) % d;
        vstd::arithmetic::div_mod::lemma_fundamental_div_mod(n - 1, d);
        assert(0 <= r < d) by {
            vstd::arithmetic::div_mod::lemma_mod_bound(n - 1, d);
        }
        assert(d * (q + 1) == d * q + d) by (nonlinear_arith);
        if r + 1 == d {
            vstd::arithmetic::div_mod::lemma_fundamental_div_mod_converse(n, d, q + 1, 0);
        } else {
            vstd::arithmetic::div_mod::lemma_fundamental_div_mod_converse(n, d, q, r + 1);
        }
    } else {
        vstd::arithmetic::div_mod::lemma_fundamental_div_mod_converse(0, d, 0, 0);
    }
}

/// Where no duration is known, tests go to the parts in turn: the test at a position is in the
/// part whose number is the remainder of the position, and no part has two tests more than another.
pub proof fn unknown_tests_go_in_turn(
    names: Seq<Seq<char>>,
    times: Seq<Named<Duration>>,
    total: nat,
    s: int,
)
    requires
        0 <= s < total,
        forall|i: int| 0 <= i < names.len() ==> !has_key(times, #[trigger] names[i]),
    ensures
        forall|i: int|
            0 <= i < names.len() && i % total as int == s ==> partition_part(
                names,
                times,
                total,
                None,
                s,
            ).contains(#[trigger] names[i]),
        partition_part(names, times, total, None, s).len() == names.len() / total + if s
            < names.len() as int % total as int {
            1int
        } else {
            0
        },
{
    let units = units_of(names, None);
    let keys = unit_keys(times, units);
    let o = Seq::new(names.len(), |i: int| i);
    assert forall|i: int| 0 <= i < units.len() implies unit_nanos(times, #[trigger] units[i])
        is None by {
        assert(!has_key(times, names[i]));
        assert(units[i].drop_last() =~= Seq::<Seq<char>>::empty());
        assert(unit_nanos(times, units[i].drop_last()) is None);
        assert(units[i].last() == names[i]);
    }
    assert forall|i: int| 0 <= i < keys.len() implies (#[trigger] keys[i]).nanos is None by {
        assert(unit_nanos(times, units[i]) is None);
    }
    assert forall|a: int, b: int| 0 <= a < b < o.len() implies crate::sort::ranks_before(
        keys,
        #[trigger] o[a],
        #[trigger] o[b],
    ) by {
        assert(keys[a].nanos is None && keys[b].nanos is None);
    }
    assert(is_order(keys, o));
    crate::sort::order_is_unique(keys, o);
    let out = handed_out(times, units);
    assert(out =~= units);
    let part = handed_to(times, out, total, s);
    assert forall|n: int| 0 <= n < out.len() implies #[trigger] part(n) == (if n % total as int
        == s {
        seq![names[n]]
    } else {
        Seq::empty()
    }) by {
        none_timed(times, out, n as nat);
        assert(unit_nanos(times, units[n]) is None);
    }
    turns_are_counted(part, names, total, s, names.len() as int);
    remainders_are(names.len() as int, total, s);
    assert forall|i: int| 0 <= i < names.len() && i % total as int == s implies gathered(
        part,
        out.len(),
    ).contains(#[trigger] names[i]) by {
        assert(part(i)[0] == names[i]);
        let y = crate::gather::gathered_holds(part, out.len(), i, 0);
    }
}

proof fn none_timed(times: Seq<Named<Duration>>, out: Seq<Seq<Seq<char>>>, n: nat)
    requires
        n <= out.len(),
        forall|i: int| 0 <= i < out.len() ==> unit_nanos(times, #[trigger] out[i]) is None,
    ensures
        timed_count(times, out, n) == 0,
    decreases n,
{
    if n > 0 {
        none_timed(times, out, (n - 1) as nat);
        assert(unit_nanos(times, out[n - 1]) is None);
    }
}

proof fn turns_are_counted(
    part: spec_fn(int) -> Seq<Seq<char>>,
    names: Seq<Seq<char>>,
    total: nat,
    s: int,
    n: int,
)
    requires
        0 <= n <= names.len(),
        forall|i: int|
            0 <= i < names.len() ==> #[trigger] part(i) == (if i % total as int == s {
                seq![names[i]]
            } else {
                Seq::empty()
            }),
    ensures
        gathered(part, n as nat).len() == remainders(n, total, s),
    decreases n,
{
    if n > 0 {
        turns_are_counted(part, names, total, s, n - 1);
        assert(part(n - 1).len() == (if (n - 1) % total as int == s {
            1nat
        } else {
            0
        }));
    }
}

/// How many of the tests have no known duration.
pub open spec fn unknown_count(times: Seq<Named<Duration>>, names: Seq<Seq<char>>) -> nat
    decreases names.len(),
{
    if names.len() == 0 {
        0
    } else {
        unknown_count(times, names.drop_last()) + if has_key(times, names.last()) {
            0nat
        } else {
            1
        }
    }
}

/// Tests whose durations are not known are spread evenly, whatever is known of the others: no part
/// has two such tests more than another.
pub proof fn unknown_tests_are_spread(
    names: Seq<Seq<char>>,
    times: Seq<Named<Duration>>,
    total: nat,
    s: int,
    q: int,
)
    requires
        0 <= s < total,
        0 <= q < total,
    ensures
        unknown_count(times, partition_part(names, times, total, None, s)) <= unknown_count(
            times,
            partition_part(names, times, total, None, q),
        ) + 1,
{
    let units = units_of(names, None);
    let keys = unit_keys(times, units);
    let o = order_of(keys);
    crate::sort::order_exists(keys);
    let out = handed_out(times, units);
    assert forall|n: int| 0 <= n < out.len() implies (#[trigger] out[n]).len() == 1 by {
        assert(0 <= o[n] < units.len());
    }
    unknown_take_turns(times, out, total, s, out.len() as int);
    unknown_take_turns(times, out, total, q, out.len() as int);
    timed_bound(times, out, out.len());
    let k = out.len() - timed_count(times, out, out.len());
    remainders_are(k, total, s);
    remainders_are(k, total, q);
}

proof fn unknown_count_add(times: Seq<Named<Duration>>, a: Seq<Seq<char>>, b: Seq<Seq<char>>)
    ensures
        unknown_count(times, a + b) == unknown_count(times, a) + unknown_count(times, b),
    decreases b.len(),
{
    if b.len() == 0 {
        assert(a + b =~= a);
    } else {
        assert((a + b).drop_last() =~= a + b.drop_last());
        unknown_count_add(times, a, b.drop_last());
    }
}

proof fn unknown_take_turns(
    times: Seq<Named<Duration>>,
    out: Seq<Seq<Seq<char>>>,
    total: nat,
    s: int,
    n: int,
)
    requires
        0 <= s < total,
        0 <= n <= out.len(),
        forall|i: int| 0 <= i < out.len() ==> (#[trigger] out[i]).len() == 1,
    ensures
        timed_count(times, out, n as nat) <= n,
        unknown_count(times, gathered(handed_to(times, out, total, s), n as nat)) == remainders(
            n - timed_count(times, out, n as nat),
            total,
            s,
        ),
    decreases n,
{
    timed_bound(times, out, n as nat);
    if n > 0 {
        unknown_take_turns(times, out, total, s, n - 1);
        let part = handed_to(times, out, total, s);
        let unit = out[n - 1];
        assert(unit.len() == 1);
        assert(unit.drop_last() =~= Seq::<Seq<char>>::empty());
        assert(unknown_count(times, unit.drop_last()) == 0);
        assert(unit_nanos(times, unit.drop_last()) is None);
        unknown_count_add(times, gathered(part, (n - 1) as nat), part(n - 1));
        assert(unknown_count(times, Seq::<Seq<char>>::empty()) == 0);
    }
}

} // verus!
