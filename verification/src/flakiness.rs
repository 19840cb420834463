//! How often tests fail, and how often they change between passing and failing.

use vstd::prelude::*;
use vstd::string::*;

use crate::collection::{entry_of, has_key, with_entry_laws, KeyedList, Named, TextMap, Keyed};
use crate::gather::gathered;
use crate::repository::{is_failure, TestId, TestResult};
use crate::sort::{is_order, positions, ranks_total, sorted_order, SortKey};
use crate::store::{run_refs, Store, StoredRun};
use crate::text::compose::{cat4, cat5, texts};
use crate::text::number::{count_text, decimal, decimal_text};
use crate::text::order::{text_less, text_lt, text_lt_irreflexive, text_lt_total, text_lt_transitive};

verus! {

broadcast use crate::text::compose::texts_push;

/// How a test fared over some runs.
#[derive(Debug)]
pub struct TestFlakiness {
    /// The test.
    pub test_id: TestId,
    /// How many of the runs have a result of it.
    pub runs: usize,
    /// In how many of them it failed.
    pub failures: usize,
    /// How often it changed from one of them to the next.
    pub transitions: usize,
}

/// How a test fared, as numbers.
pub struct Record {
    /// The name of the test.
    pub name: Seq<char>,
    /// How many runs have a result of it.
    pub runs: nat,
    /// In how many of them it failed.
    pub failures: nat,
    /// How often it changed.
    pub transitions: nat,
}

impl View for TestFlakiness {
    type V = Record;

    open spec fn view(&self) -> Record {
        Record {
            name: self.test_id@,
            runs: self.runs as nat,
            failures: self.failures as nat,
            transitions: self.transitions as nat,
        }
    }
}

/// How many changes there can be at most; at least one, to divide by.
pub open spec fn change_limit(runs: nat) -> nat {
    if runs < 2 {
        1
    } else {
        (runs - 1) as nat
    }
}

/// How many failures a history has. `true` stands for a failure.
pub open spec fn failures_in(h: Seq<bool>) -> nat
    decreases h.len(),
{
    if h.len() == 0 {
        0
    } else {
        failures_in(h.drop_last()) + if h.last() {
            1nat
        } else {
            0nat
        }
    }
}

/// How often a history changes from one outcome to the next.
pub open spec fn changes_in(h: Seq<bool>) -> nat
    decreases h.len(),
{
    if h.len() < 2 {
        0
    } else {
        changes_in(h.drop_last()) + if h[h.len() - 1] != h[h.len() - 2] {
            1nat
        } else {
            0nat
        }
    }
}

/// The record of a test with a history.
pub open spec fn record_of(name: Seq<char>, h: Seq<bool>) -> Record {
    Record {
        name,
        runs: h.len(),
        failures: failures_in(h),
        transitions: changes_in(h),
    }
}

/// There are never more changes than there can be, nor more failures than outcomes.
pub proof fn changes_are_limited(h: Seq<bool>)
    ensures
        changes_in(h) <= change_limit(h.len()),
        h.len() < 2 ==> changes_in(h) == 0,
        failures_in(h) <= h.len(),
    decreases h.len(),
{
    if h.len() > 0 {
        changes_are_limited(h.drop_last());
    }
}

impl SortKey for TestFlakiness {
    /// The one that changes most often, in relation to how often it could, first; then the one
    /// that fails most often; then by name.
    open spec fn before(&self, other: &Self) -> bool {
        let a = self@.transitions * change_limit(other@.runs);
        let b = other@.transitions * change_limit(self@.runs);
        a > b || (a == b && (self.failures > other.failures || (self.failures == other.failures
            && text_lt(self.test_id@, other.test_id@))))
    }

    proof fn weak_order(a: &Self, b: &Self, c: &Self) {
        let (ta, tb, tc) = (a@.transitions, b@.transitions, c@.transitions);
        let (la, lb, lc) = (change_limit(a@.runs), change_limit(b@.runs), change_limit(c@.runs));
        ratio_transitive(ta as int, la as int, tb as int, lb as int, tc as int, lc as int);
        ratio_transitive(tc as int, lc as int, tb as int, lb as int, ta as int, la as int);
        let (x, y, z) = (a.test_id@, b.test_id@, c.test_id@);
        text_lt_irreflexive(x);
        if text_lt(x, y) && text_lt(y, z) {
            text_lt_transitive(x, y, z);
        }
        text_lt_total(x, y);
        text_lt_total(y, z);
        if text_lt(y, x) && text_lt(z, y) {
            text_lt_transitive(z, y, x);
        }
        if text_lt(x, z) && text_lt(z, x) {
            text_lt_transitive(x, z, x);
        }
    }

    fn is_before(&self, other: &Self) -> (r: bool) {
        let la: u128 = if self.runs < 2 {
            1
        } else {
            (self.runs - 1) as u128
        };
        let lb: u128 = if other.runs < 2 {
            1
        } else {
            (other.runs - 1) as u128
        };
        let ta: u128 = self.transitions as u128;
        let tb: u128 = other.transitions as u128;
        assert(ta * lb <= 0xffff_ffff_ffff_ffff * 0xffff_ffff_ffff_ffff) by (nonlinear_arith)
            requires
                ta <= 0xffff_ffff_ffff_ffff,
                lb <= 0xffff_ffff_ffff_ffff,
        ;
        assert(tb * la <= 0xffff_ffff_ffff_ffff * 0xffff_ffff_ffff_ffff) by (nonlinear_arith)
            requires
                tb <= 0xffff_ffff_ffff_ffff,
                la <= 0xffff_ffff_ffff_ffff,
        ;
        let a: u128 = ta * lb;
        let b: u128 = tb * la;
        a > b || (a == b && (self.failures > other.failures || (self.failures == other.failures
            && text_less(self.test_id.as_str(), other.test_id.as_str()))))
    }
}

/// Ratios with positive denominators are ordered transitively.
pub proof fn ratio_transitive(a: int, la: int, b: int, lb: int, c: int, lc: int)
    requires
        a >= 0,
        b >= 0,
        c >= 0,
        la > 0,
        lb > 0,
        lc > 0,
    ensures
        a * lb >= b * la && b * lc >= c * lb ==> a * lc >= c * la,
        a * lb > b * la && b * lc >= c * lb ==> a * lc > c * la,
        a * lb >= b * la && b * lc > c * lb ==> a * lc > c * la,
{
    if a * lb >= b * la && b * lc >= c * lb {
        assert(a * lb * lc >= b * la * lc) by (nonlinear_arith)
            requires
                a * lb >= b * la,
                lc > 0,
        ;
        assert(b * lc * la >= c * lb * la) by (nonlinear_arith)
            requires
                b * lc >= c * lb,
                la > 0,
        ;
        assert(b * la * lc == b * lc * la) by (nonlinear_arith);
        assert(a * lb * lc == a * lc * lb) by (nonlinear_arith);
        assert(c * lb * la == c * la * lb) by (nonlinear_arith);
        assert(a * lc * lb >= c * la * lb);
        assert(a * lc >= c * la) by (nonlinear_arith)
            requires
                a * lc * lb >= c * la * lb,
                lb > 0,
        ;
        if a * lb > b * la {
            assert(a * lb * lc > b * la * lc) by (nonlinear_arith)
                requires
                    a * lb > b * la,
                    lc > 0,
            ;
            assert(a * lc > c * la) by (nonlinear_arith)
                requires
                    a * lc * lb > c * la * lb,
                    lb > 0,
            ;
        }
        if b * lc > c * lb {
            assert(b * lc * la > c * lb * la) by (nonlinear_arith)
                requires
                    b * lc > c * lb,
                    la > 0,
            ;
            assert(a * lc > c * la) by (nonlinear_arith)
                requires
                    a * lc * lb > c * la * lb,
                    lb > 0,
            ;
        }
    }
}

/// The result of a test in a run, where the run has one, as a failure or not.
pub open spec fn outcome_part(window: Seq<&StoredRun>, t: Seq<char>) -> spec_fn(int) -> Seq<bool> {
    |i: int|
        if has_key(window[i].run.results@, t) {
            seq![is_failure(entry_of(window[i].run.results@, t).status)]
        } else {
            Seq::empty()
        }
}

/// How a test fared over the runs.
pub open spec fn history_of(window: Seq<&StoredRun>, t: Seq<char>) -> Seq<bool> {
    gathered(outcome_part(window, t), window.len())
}

/// Whether any of the first `n` runs has a result of a test.
pub open spec fn seen_in(window: Seq<&StoredRun>, n: int, t: Seq<char>) -> bool {
    exists|i: int| 0 <= i < n && has_key((#[trigger] window[i]).run.results@, t)
}

/// Whether `names` ascend, so that none occurs twice.
pub open spec fn names_ascend(names: Seq<Seq<char>>) -> bool {
    forall|i: int, j: int|
        0 <= i < j < names.len() ==> text_lt(#[trigger] names[i], #[trigger] names[j])
}

/// Whether `names` lists, in order, the tests that the runs have results of.
pub open spec fn lists_tests(names: Seq<Seq<char>>, window: Seq<&StoredRun>) -> bool {
    &&& names_ascend(names)
    &&& forall|t: Seq<char>| #[trigger]
        names.contains(t) <==> seen_in(window, window.len() as int, t)
}

/// The outcomes of a test in a history, counted.
pub fn count_history(name: &TestId, h: &Vec<bool>) -> (r: TestFlakiness)
    ensures
        r@ == record_of(name@, h@),
{
    let mut failures: usize = 0;
    let mut transitions: usize = 0;
    for i in 0..h.len()
        invariant
            failures == failures_in(h@.take(i as int)),
            transitions == changes_in(h@.take(i as int)),
            failures <= i,
            transitions <= i,
    {
        assert(h@.take(i + 1).drop_last() =~= h@.take(i as int));
        if h[i] {
            failures += 1;
        }
        if i > 0 && h[i] != h[i - 1] {
            transitions += 1;
        }
    }
    assert(h@.take(h@.len() as int) =~= h@);
    TestFlakiness { test_id: name.copy(), runs: h.len(), failures, transitions }
}

/// How a test fared over the runs.
pub fn history(window: &Vec<&StoredRun>, t: &str) -> (r: Vec<bool>)
    ensures
        r@ == history_of(window@, t@),
{
    let mut r: Vec<bool> = Vec::new();
    for i in 0..window.len()
        invariant
            r@ =~= gathered(outcome_part(window@, t@), i as nat),
    {
        if let Some(result) = window[i].run.results.find(t) {
            r.push(result.status.is_failure());
        }
    }
    r
}

/// The tests that the runs have results of.
pub fn tests_of(window: &Vec<&StoredRun>) -> (r: Vec<String>)
    ensures
        lists_tests(texts(r@), window@),
{
    let mut names: TextMap<bool> = KeyedList::new();
    for i in 0..window.len()
        invariant
            forall|t: Seq<char>| #[trigger]
                has_key(names@, t) <==> seen_in(window@, i as int, t),
    {
        let v: &Vec<TestResult> = window[i].run.results.entries();
        let ghost before = names@;
        for j in 0..v.len()
            invariant
                v@ == window@[i as int].run.results@,
                forall|t: Seq<char>| #[trigger]
                    has_key(names@, t) <==> has_key(before, t) || has_key(v@.take(j as int), t),
        {
            let e: Named<bool> = Named { name: v[j].test_id.as_str().to_owned(), value: true };
            let ghost g = e;
            let ghost earlier = names@;
            let _ = names.entries();
            names.put(e);
            proof {
                with_entry_laws(earlier, g);
                let now = v@.take(j + 1);
                let then = v@.take(j as int);
                assert forall|t: Seq<char>| #[trigger]
                    has_key(names@, t) <==> has_key(before, t) || has_key(now, t) by {
                    assert(t != g.name@ ==> has_key(names@, t) == has_key(earlier, t));
                    if has_key(then, t) {
                        let k = choose|k: int| 0 <= k < then.len() && (#[trigger] then[k]).key_text() == t;
                        assert(now[k].key_text() == t);
                    }
                    if has_key(now, t) {
                        let k = choose|k: int| 0 <= k < now.len() && (#[trigger] now[k]).key_text() == t;
                        if k < j {
                            assert(then[k].key_text() == t);
                        }
                    }
                    assert(now[j as int].key_text() == g.name@);
                }
            }
        }
        proof {
            assert(v@.take(v@.len() as int) =~= v@);
            assert forall|t: Seq<char>| #[trigger]
                has_key(names@, t) <==> seen_in(window@, i + 1, t) by {
                assert(has_key(before, t) <==> seen_in(window@, i as int, t));
                if has_key(v@, t) {
                    assert(has_key(window@[i as int].run.results@, t));
                }
                if seen_in(window@, i + 1, t) {
                    let k = choose|k: int|
                        0 <= k < i + 1 && has_key((#[trigger] window@[k]).run.results@, t);
                    if k < i {
                        assert(seen_in(window@, i as int, t));
                    }
                }
                if seen_in(window@, i as int, t) {
                    let k = choose|k: int|
                        0 <= k < i && has_key((#[trigger] window@[k]).run.results@, t);
                    assert(has_key(window@[k].run.results@, t));
                }
            }
        }
    }
    let v: &Vec<Named<bool>> = names.entries();
    let mut r: Vec<String> = Vec::new();
    for i in 0..v.len()
        invariant
            r@.len() == i,
            forall|k: int| 0 <= k < i ==> (#[trigger] r@[k])@ == v@[k].key_text(),
    {
        r.push(v[i].name.clone());
    }
    proof {
        let t = texts(r@);
        assert forall|i: int, j: int| 0 <= i < j < t.len() implies text_lt(
            #[trigger] t[i],
            #[trigger] t[j],
        ) by {
            assert(text_lt(v@[i].key_text(), v@[j].key_text()));
        }
        assert forall|x: Seq<char>| #[trigger]
            t.contains(x) <==> seen_in(window@, window@.len() as int, x) by {
            assert(has_key(names@, x) <==> seen_in(window@, window@.len() as int, x));
            if t.contains(x) {
                let k = choose|k: int| 0 <= k < t.len() && t[k] == x;
                assert(v@[k].key_text() == x);
            }
            if has_key(names@, x) {
                let k = choose|k: int| 0 <= k < v@.len() && (#[trigger] v@[k]).key_text() == x;
                assert(t[k] == x);
            }
        }
    }
    r
}

/// Records as numbers.
pub open spec fn records(v: Seq<TestFlakiness>) -> Seq<Record> {
    Seq::new(v.len(), |i: int| v[i]@)
}

/// Whether `a` is listed before `b`.
pub open spec fn flakier(a: Record, b: Record) -> bool {
    let x = a.transitions * change_limit(b.runs);
    let y = b.transitions * change_limit(a.runs);
    x > y || (x == y && (a.failures > b.failures || (a.failures == b.failures && text_lt(
        a.name,
        b.name,
    ))))
}

/// Whether `list` holds the records of exactly the tests that `wanted` names, in order.
pub open spec fn is_ranking(
    list: Seq<Record>,
    window: Seq<&StoredRun>,
    wanted: spec_fn(Seq<char>) -> bool,
) -> bool {
    &&& forall|i: int|
        0 <= i < list.len() ==> {
            &&& wanted((#[trigger] list[i]).name)
            &&& seen_in(window, window.len() as int, list[i].name)
            &&& list[i] == record_of(list[i].name, history_of(window, list[i].name))
        }
    &&& forall|t: Seq<char>|
        wanted(t) && #[trigger] seen_in(window, window.len() as int, t) ==> exists|i: int|
            0 <= i < list.len() && (#[trigger] list[i]).name == t
    &&& forall|i: int, j: int|
        0 <= i < j < list.len() ==> flakier(#[trigger] list[i], #[trigger] list[j])
}

/// Whether no test is listed twice.
pub open spec fn names_differ(v: Seq<TestFlakiness>) -> bool {
    forall|i: int, j: int|
        0 <= i < j < v.len() ==> (#[trigger] v[i]).test_id@ != (#[trigger] v[j]).test_id@
}

/// Whether a test with a history is ranked: it failed at least once and has enough results. Where
/// `drop_broken` is set, a test that failed in every one of `total` runs is left out.
pub open spec fn is_ranked(h: Seq<bool>, total: nat, min_runs: nat, drop_broken: bool) -> bool {
    &&& failures_in(h) > 0
    &&& h.len() >= min_runs
    &&& drop_broken ==> failures_in(h) < h.len() || h.len() < total
}

/// Whether a test is ranked.
pub open spec fn ranked_tests(
    window: Seq<&StoredRun>,
    min_runs: nat,
    drop_broken: bool,
) -> spec_fn(Seq<char>) -> bool {
    |t: Seq<char>| is_ranked(history_of(window, t), window.len(), min_runs, drop_broken)
}

/// Ranks the tests of the runs by how often they change between passing and failing.
pub fn rank(window: &Vec<&StoredRun>, min_runs: usize, drop_broken: bool) -> (r: Vec<TestFlakiness>)
    ensures
        is_ranking(records(r@), window@, ranked_tests(window@, min_runs as nat, drop_broken)),
        names_differ(r@),
{
    let names: Vec<String> = tests_of(window);
    let ghost all = texts(names@);
    let ghost w = window@;
    let ghost wanted = ranked_tests(w, min_runs as nat, drop_broken);
    let mut v: Vec<TestFlakiness> = Vec::new();
    for i in 0..names.len()
        invariant
            w == window@,
            all == texts(names@),
            lists_tests(all, w),
            wanted == ranked_tests(w, min_runs as nat, drop_broken),
            names_differ(v@),
            forall|k: int|
                0 <= k < v@.len() ==> {
                    &&& is_listed_below(all, (#[trigger] v@[k]).test_id@, i as int)
                    &&& wanted(v@[k].test_id@)
                    &&& v@[k]@ == record_of(v@[k].test_id@, history_of(w, v@[k].test_id@))
                },
            forall|a: int|
                0 <= a < i && wanted(#[trigger] all[a]) ==> records(v@).contains(
                    record_of(all[a], history_of(w, all[a])),
                ),
    {
        let h: Vec<bool> = history(window, names[i].as_str());
        let id: TestId = TestId::new(names[i].as_str());
        let x: TestFlakiness = count_history(&id, &h);
        let ghost t = all[i as int];
        proof {
            changes_are_limited(h@);
        }
        let ghost before = v@;
        if x.failures > 0 && x.runs >= min_runs && (!drop_broken || x.failures < x.runs || x.runs
            < window.len()) {
            v.push(x);
            proof {
                assert(v@.last().test_id@ == t);
                assert(all[i as int] == t);
                assert forall|a: int, b: int| 0 <= a < b < v@.len() implies (
                #[trigger] v@[a]).test_id@ != (#[trigger] v@[b]).test_id@ by {
                    assert(v@[a] == before[a]);
                    if b == before.len() {
                        assert(is_listed_below(all, before[a].test_id@, i as int));
                        let k = choose|k: int| 0 <= k < i && #[trigger] all[k] == before[a].test_id@;
                        assert(text_lt(all[k], all[i as int]));
                        text_lt_irreflexive(t);
                    } else {
                        assert(v@[b] == before[b]);
                    }
                }
            }
        } else {
            assert(!wanted(t));
        }
        proof {
            assert forall|k: int| 0 <= k < v@.len() implies {
                &&& is_listed_below(all, (#[trigger] v@[k]).test_id@, i + 1)
                &&& wanted(v@[k].test_id@)
                &&& v@[k]@ == record_of(v@[k].test_id@, history_of(w, v@[k].test_id@))
            } by {
                if k < before.len() {
                    assert(v@[k] == before[k]);
                    let a = choose|a: int| 0 <= a < i && #[trigger] all[a] == before[k].test_id@;
                    assert(all[a] == before[k].test_id@);
                } else {
                    assert(all[i as int] == v@[k].test_id@);
                }
            }
            assert forall|a: int| 0 <= a < i + 1 && wanted(#[trigger] all[a]) implies records(
                v@,
            ).contains(record_of(all[a], history_of(w, all[a]))) by {
                let rec = record_of(all[a], history_of(w, all[a]));
                if a < i {
                    assert(records(before).contains(rec));
                    let k = choose|k: int| 0 <= k < records(before).len() && records(before)[k] == rec;
                    assert(records(v@)[k] == rec);
                } else {
                    assert(records(v@)[v@.len() - 1] == rec);
                }
            }
        }
    }
    let r: Vec<TestFlakiness> = sort_records(&v);
    proof {
        let list = records(r@);
        assert forall|i: int| 0 <= i < list.len() implies {
            &&& wanted((#[trigger] list[i]).name)
            &&& seen_in(w, w.len() as int, list[i].name)
            &&& list[i] == record_of(list[i].name, history_of(w, list[i].name))
        } by {
            assert(records(r@).contains(list[i]));
            assert(records(v@).contains(list[i]));
            let k = choose|k: int| 0 <= k < records(v@).len() && records(v@)[k] == list[i];
            assert(v@[k]@ == list[i]);
            let a = choose|a: int| 0 <= a < all.len() && #[trigger] all[a] == v@[k].test_id@;
            assert(all.contains(list[i].name));
        }
        assert forall|t: Seq<char>|
            wanted(t) && #[trigger] seen_in(w, w.len() as int, t) implies exists|i: int|
            0 <= i < list.len() && (#[trigger] list[i]).name == t by {
            assert(all.contains(t));
            let a = choose|a: int| 0 <= a < all.len() && all[a] == t;
            let rec = record_of(t, history_of(w, t));
            assert(records(v@).contains(rec));
            assert(list.contains(rec));
            let i = choose|i: int| 0 <= i < list.len() && list[i] == rec;
            assert(list[i].name == t);
        }
        assert forall|i: int, j: int| 0 <= i < j < list.len() implies flakier(
            #[trigger] list[i],
            #[trigger] list[j],
        ) by {
            assert(r@[i].test_id@ != r@[j].test_id@);
            assert(!flakier(r@[j]@, r@[i]@));
            flakier_total(list[i], list[j]);
        }
    }
    r
}

impl Store {
    /// Ranks the tests that have at least `min_runs` results and failed in one, by how often they
    /// change between passing and failing.
    pub fn get_flakiness(&self, min_runs: usize) -> (r: Vec<TestFlakiness>)
        ensures
            is_ranking(
                records(r@),
                run_refs(self.runs@),
                ranked_tests(run_refs(self.runs@), min_runs as nat, false),
            ),
    {
        let all: Vec<&StoredRun> = self.all_runs();
        rank(&all, min_runs, false)
    }
}

/// Whether one of the first `n` names is `t`.
pub open spec fn is_listed_below(names: Seq<Seq<char>>, t: Seq<char>, n: int) -> bool {
    exists|k: int| 0 <= k < n && #[trigger] names[k] == t
}

/// Sorts records of different tests.
pub fn sort_records(v: &Vec<TestFlakiness>) -> (r: Vec<TestFlakiness>)
    ensures
        r@.len() == v@.len(),
        forall|i: int, j: int| 0 <= i < j < r@.len() ==> !flakier(#[trigger] r@[j]@, #[trigger] r@[i]@),
        forall|x: Record| #[trigger] records(r@).contains(x) <==> records(v@).contains(x),
        names_differ(v@) ==> names_differ(r@),
{
    let order: Vec<usize> = sorted_order(v);
    let ghost o = positions(order@);
    let mut r: Vec<TestFlakiness> = Vec::new();
    for i in 0..order.len()
        invariant
            o == positions(order@),
            is_order(v@, o),
            r@.len() == i,
            forall|k: int| 0 <= k < i ==> (#[trigger] r@[k])@ == v@[o[k]]@,
    {
        assert(0 <= o[i as int] < v@.len());
        let x: &TestFlakiness = &v[order[i]];
        r.push(
            TestFlakiness {
                test_id: x.test_id.copy(),
                runs: x.runs,
                failures: x.failures,
                transitions: x.transitions,
            },
        );
    }
    proof {
        assert forall|i: int, j: int| 0 <= i < j < r@.len() implies !flakier(
            #[trigger] r@[j]@,
            #[trigger] r@[i]@,
        ) by {
            assert(crate::sort::ranks_before(v@, o[i], o[j]));
            TestFlakiness::weak_order(&v@[o[i]], &v@[o[j]], &v@[o[i]]);
        }
        if names_differ(v@) {
            assert forall|i: int, j: int| 0 <= i < j < r@.len() implies (
            #[trigger] r@[i]).test_id@ != (#[trigger] r@[j]).test_id@ by {
                ranks_total(v@, o[i], o[j], o[i]);
                assert(crate::sort::ranks_before(v@, o[i], o[j]));
                assert(0 <= o[i] < v@.len() && 0 <= o[j] < v@.len());
                assert(r@[i]@ == v@[o[i]]@ && r@[j]@ == v@[o[j]]@);
                if o[i] < o[j] {
                    assert(v@[o[i]].test_id@ != v@[o[j]].test_id@);
                } else {
                    assert(v@[o[j]].test_id@ != v@[o[i]].test_id@);
                }
            }
        }
        assert forall|x: Record| #[trigger]
            records(r@).contains(x) <==> records(v@).contains(x) by {
            if records(r@).contains(x) {
                let k = choose|k: int| 0 <= k < records(r@).len() && records(r@)[k] == x;
                assert(0 <= o[k] < v@.len());
                assert(records(v@)[o[k]] == x);
            }
            if records(v@).contains(x) {
                let k = choose|k: int| 0 <= k < records(v@).len() && records(v@)[k] == x;
                crate::sort::order_is_complete(v@, o, k);
                let p = choose|p: int| 0 <= p < o.len() && o[p] == k;
                assert(records(r@)[p] == x);
            }
        }
    }
    r
}

/// Of two different names, one record goes before the other.
proof fn flakier_total(a: Record, b: Record)
    requires
        a.name != b.name,
    ensures
        flakier(a, b) || flakier(b, a),
{
    text_lt_total(a.name, b.name);
}

/// Histories that follow each other fail as often as both.
pub proof fn failures_add_up(a: Seq<bool>, b: Seq<bool>)
    ensures
        failures_in(a + b) == failures_in(a) + failures_in(b),
        failures_in(seq![true]) == 1,
        failures_in(seq![false]) == 0,
    decreases b.len(),
{
    assert(seq![true].drop_last() =~= Seq::<bool>::empty());
    assert(seq![false].drop_last() =~= Seq::<bool>::empty());
    assert(failures_in(Seq::<bool>::empty()) == 0);
    if b.len() == 0 {
        assert(a + b =~= a);
    } else {
        assert((a + b).drop_last() =~= a + b.drop_last());
        failures_add_up(a, b.drop_last());
    }
}

/// Histories that follow each other change as often as both, and once more where the first one ends
/// otherwise than the second one begins. A single outcome is no change.
pub proof fn changes_add_up(a: Seq<bool>, b: Seq<bool>)
    requires
        a.len() > 0,
        b.len() > 0,
    ensures
        changes_in(a + b) == changes_in(a) + changes_in(b) + if a.last() != b[0] {
            1nat
        } else {
            0
        },
        a.len() == 1 ==> changes_in(a) == 0,
    decreases b.len(),
{
    assert((a + b).drop_last() =~= a + b.drop_last());
    if b.len() == 1 {
        assert(a + b.drop_last() =~= a);
    } else {
        changes_add_up(a, b.drop_last());
    }
}

/// A test that always passes or always fails does not change, and one that passes and fails does.
pub proof fn only_mixed_histories_change(h: Seq<bool>)
    ensures
        changes_in(h) == 0 <==> forall|i: int, j: int|
            0 <= i < h.len() && 0 <= j < h.len() ==> #[trigger] h[i] == #[trigger] h[j],
    decreases h.len(),
{
    if h.len() >= 2 {
        let init = h.drop_last();
        only_mixed_histories_change(init);
        let n = h.len() - 1;
        if changes_in(h) == 0 {
            assert forall|i: int, j: int|
                0 <= i < h.len() && 0 <= j < h.len() implies #[trigger] h[i] == #[trigger] h[j] by {
                assert(h[n] == h[n - 1]);
                assert(init[n - 1] == h[n - 1]);
                if i < n {
                    assert(init[i] == init[n - 1]);
                }
                if j < n {
                    assert(init[j] == init[n - 1]);
                }
            }
        }
        if forall|i: int, j: int|
            0 <= i < h.len() && 0 <= j < h.len() ==> #[trigger] h[i] == #[trigger] h[j] {
            assert forall|i: int, j: int|
                0 <= i < init.len() && 0 <= j < init.len() implies #[trigger] init[i]
                == #[trigger] init[j] by {
                assert(h[i] == h[j]);
            }
            assert(h[n] == h[n - 1]);
        }
    }
}

/// In a ranking, a test that changes more often, in relation to how often it could, comes first: a
/// test that never changes, however often it fails, comes behind every test that does. A test is
/// listed once, with what its results in the runs tell.
pub proof fn flapping_tests_rank_first(
    list: Seq<Record>,
    window: Seq<&StoredRun>,
    min_runs: nat,
    drop_broken: bool,
    i: int,
    j: int,
)
    requires
        is_ranking(list, window, ranked_tests(window, min_runs, drop_broken)),
        0 <= i < j < list.len(),
    ensures
        list[i].name != list[j].name,
        list[j].transitions > 0 ==> list[i].transitions > 0,
        list[i].transitions * (if list[j].runs < 2 {
            1
        } else {
            list[j].runs - 1
        }) >= list[j].transitions * (if list[i].runs < 2 {
            1
        } else {
            list[i].runs - 1
        }),
        list[i].runs == list[j].runs && list[i].transitions == list[j].transitions
            ==> list[i].failures >= list[j].failures,
{
    let a = list[i];
    let b = list[j];
    assert(flakier(a, b));
    text_lt_irreflexive(a.name);
    if a.name == b.name {
        assert(a == record_of(a.name, history_of(window, a.name)));
        assert(b == record_of(b.name, history_of(window, b.name)));
    }
    if b.transitions > 0 && a.transitions == 0 {
        assert(a.transitions * change_limit(b.runs) == 0) by (nonlinear_arith)
            requires
                a.transitions == 0,
        ;
        assert(b.transitions * change_limit(a.runs) > 0) by (nonlinear_arith)
            requires
                b.transitions > 0,
                change_limit(a.runs) > 0,
        ;
    }
}

/// A test is in a ranking exactly if one of the runs has a failure of it, and enough of them have a
/// result of it. Where broken tests are left out, a test that failed in every run is not.
pub proof fn failing_tests_are_ranked(
    list: Seq<Record>,
    window: Seq<&StoredRun>,
    min_runs: nat,
    drop_broken: bool,
    t: Seq<char>,
)
    requires
        is_ranking(list, window, ranked_tests(window, min_runs, drop_broken)),
    ensures
        (exists|k: int| 0 <= k < list.len() && (#[trigger] list[k]).name == t) <==> {
            &&& history_of(window, t).len() >= min_runs
            &&& exists|i: int|
                0 <= i < window.len() && has_key((#[trigger] window[i]).run.results@, t)
                    && is_failure(entry_of(window[i].run.results@, t).status)
            &&& drop_broken ==> exists|i: int|
                0 <= i < window.len() && !(has_key((#[trigger] window[i]).run.results@, t)
                    && is_failure(entry_of(window[i].run.results@, t).status))
        },
{
    let wanted = ranked_tests(window, min_runs, drop_broken);
    let h = history_of(window, t);
    failures_in_history(window, t, window.len());
    if exists|k: int| 0 <= k < list.len() && (#[trigger] list[k]).name == t {
        let k = choose|k: int| 0 <= k < list.len() && (#[trigger] list[k]).name == t;
        assert(wanted(list[k].name));
    }
    if wanted(t) {
        let i = choose|i: int|
            0 <= i < window.len() && has_key((#[trigger] window[i]).run.results@, t) && is_failure(
                entry_of(window[i].run.results@, t).status,
            );
        assert(seen_in(window, window.len() as int, t));
    }
}

/// What the history of a test tells of its results.
proof fn failures_in_history(window: Seq<&StoredRun>, t: Seq<char>, n: nat)
    requires
        n <= window.len(),
    ensures
        ({
            let h = gathered(outcome_part(window, t), n);
            &&& failures_in(h) <= h.len() <= n
            &&& failures_in(h) > 0 <==> exists|i: int|
                0 <= i < n && has_key((#[trigger] window[i]).run.results@, t) && is_failure(
                    entry_of(window[i].run.results@, t).status,
                )
            &&& failures_in(h) < n <==> exists|i: int|
                0 <= i < n && !(has_key((#[trigger] window[i]).run.results@, t) && is_failure(
                    entry_of(window[i].run.results@, t).status,
                ))
        }),
    decreases n,
{
    if n > 0 {
        let m = (n - 1) as nat;
        failures_in_history(window, t, m);
        let part = outcome_part(window, t);
        let before = gathered(part, m);
        let h = gathered(part, n);
        failures_add_up(before, part(n - 1));
        failures_add_up(before, Seq::empty());
        let x = window[n - 1];
        let fails = has_key(x.run.results@, t) && is_failure(entry_of(x.run.results@, t).status);
        assert(failures_in(h) == failures_in(before) + (if fails {
            1nat
        } else {
            0
        }));
        if exists|i: int|
            0 <= i < n && has_key((#[trigger] window[i]).run.results@, t) && is_failure(
                entry_of(window[i].run.results@, t).status,
            ) {
            let i = choose|i: int|
                0 <= i < n && has_key((#[trigger] window[i]).run.results@, t) && is_failure(
                    entry_of(window[i].run.results@, t).status,
                );
            assert(i == n - 1 || i < m);
        }
        if exists|i: int|
            0 <= i < n && !(has_key((#[trigger] window[i]).run.results@, t) && is_failure(
                entry_of(window[i].run.results@, t).status,
            )) {
            let i = choose|i: int|
                0 <= i < n && !(has_key((#[trigger] window[i]).run.results@, t) && is_failure(
                    entry_of(window[i].run.results@, t).status,
                ));
            assert(i == n - 1 || i < m);
        }
        assert(window[n - 1] == x);
    }
}

/// Failures are told to come from concurrency exactly where there are runs with several workers and
/// runs with one, and only the former had failures.
pub proof fn concurrency_is_blamed_only_where_it_matters(b: ConcurrencyBreakdown)
    ensures
        (b.parallel_runs > 0 && b.serial_runs > 0 && b.parallel_failures > 0 && b.serial_failures
            == 0) <==> (verdict_text(b) matches Some(s) && crate::text::scan::has_suffix(
            s,
            " — likely concurrency-related"@,
        )),
        verdict_text(b) is None <==> b.parallel_runs == 0 && b.serial_runs == 0,
{
    reveal_strlit(" — likely concurrency-related");
    reveal_strlit(" serially");
    reveal_strlit(")");
    let tail = " — likely concurrency-related"@;
    if let Some(s) = verdict_text(b) {
        if b.parallel_runs > 0 && b.serial_runs > 0 && b.parallel_failures > 0 && b.serial_failures
            == 0 {
            assert(s.skip(s.len() - tail.len()) =~= tail);
        } else if crate::text::scan::has_suffix(s, tail) {
            assert(tail.last() == 'd');
            assert(s.last() == s.skip(s.len() - tail.len()).last());
            assert(s.last() == ')' || s.last() == 'y');
        }
    }
}

/// How a test fared with one worker and with several.
#[derive(Clone, Copy, Debug, PartialEq, Eq, Structural)]
pub struct ConcurrencyBreakdown {
    /// Failures with one worker.
    pub serial_failures: usize,
    /// Runs with one worker.
    pub serial_runs: usize,
    /// Failures with several workers.
    pub parallel_failures: usize,
    /// Runs with several workers.
    pub parallel_runs: usize,
    /// The largest number of workers.
    pub max_parallel_concurrency: Option<u32>,
    /// Failures of which the number of workers is not known.
    pub unknown_failures: usize,
    /// Runs of which the number of workers is not known.
    pub unknown_runs: usize,
}

impl Default for ConcurrencyBreakdown {
    fn default() -> (r: ConcurrencyBreakdown)
        ensures
            r == nothing_observed(),
    {
        ConcurrencyBreakdown {
            serial_failures: 0,
            serial_runs: 0,
            parallel_failures: 0,
            parallel_runs: 0,
            max_parallel_concurrency: None,
            unknown_failures: 0,
            unknown_runs: 0,
        }
    }
}

/// The breakdown of no runs.
pub open spec fn nothing_observed() -> ConcurrencyBreakdown {
    ConcurrencyBreakdown {
        serial_failures: 0,
        serial_runs: 0,
        parallel_failures: 0,
        parallel_runs: 0,
        max_parallel_concurrency: None,
        unknown_failures: 0,
        unknown_runs: 0,
    }
}

/// One more if something holds.
pub open spec fn counted(n: usize, holds: bool) -> usize {
    if holds {
        (n + 1) as usize
    } else {
        n
    }
}

/// A breakdown with one more run.
pub open spec fn observed(b: ConcurrencyBreakdown, concurrency: Option<u32>, failure: bool) -> ConcurrencyBreakdown {
    match concurrency {
        None => ConcurrencyBreakdown {
            unknown_failures: counted(b.unknown_failures, failure),
            unknown_runs: counted(b.unknown_runs, true),
            ..b
        },
        Some(c) => if c <= 1 {
            ConcurrencyBreakdown {
                serial_failures: counted(b.serial_failures, failure),
                serial_runs: counted(b.serial_runs, true),
                ..b
            }
        } else {
            ConcurrencyBreakdown {
                parallel_failures: counted(b.parallel_failures, failure),
                parallel_runs: counted(b.parallel_runs, true),
                max_parallel_concurrency: match b.max_parallel_concurrency {
                    Some(m) if m >= c => Some(m),
                    _ => Some(c),
                },
                ..b
            }
        },
    }
}

/// A run counts once, with those of as many workers: with one worker, with several, or with a number
/// that is not known. A failure counts there as well, and the largest number of workers is kept.
pub proof fn runs_count_by_their_workers(
    b: ConcurrencyBreakdown,
    concurrency: Option<u32>,
    failure: bool,
)
    requires
        b.has_room(),
    ensures
        ({
            let a = observed(b, concurrency, failure);
            let one: int = if failure {
                1
            } else {
                0
            };
            let serial = concurrency matches Some(c) && c <= 1;
            let parallel = concurrency matches Some(c) && c > 1;
            &&& a.serial_runs == b.serial_runs + (if serial {
                1int
            } else {
                0
            })
            &&& a.parallel_runs == b.parallel_runs + (if parallel {
                1int
            } else {
                0
            })
            &&& a.unknown_runs == b.unknown_runs + (if concurrency is None {
                1int
            } else {
                0
            })
            &&& a.serial_failures == b.serial_failures + (if serial {
                one
            } else {
                0
            })
            &&& a.parallel_failures == b.parallel_failures + (if parallel {
                one
            } else {
                0
            })
            &&& a.unknown_failures == b.unknown_failures + (if concurrency is None {
                one
            } else {
                0
            })
            &&& parallel ==> a.max_parallel_concurrency is Some
                && a.max_parallel_concurrency->0 >= concurrency->0
            &&& b.max_parallel_concurrency matches Some(m) ==> a.max_parallel_concurrency is Some
                && a.max_parallel_concurrency->0 >= m
            &&& !parallel ==> a.max_parallel_concurrency == b.max_parallel_concurrency
        }),
{
}

/// What a breakdown tells of a test.
pub open spec fn verdict_text(b: ConcurrencyBreakdown) -> Option<Seq<char>> {
    let parallel = decimal(b.parallel_failures as nat) + "/"@ + decimal(b.parallel_runs as nat)
        + " in parallel (max -j "@ + decimal(
        match b.max_parallel_concurrency {
            Some(m) => m as nat,
            None => 0,
        },
    ) + ")"@;
    let serial = decimal(b.serial_failures as nat) + "/"@ + decimal(b.serial_runs as nat)
        + " serially"@;
    if b.parallel_runs == 0 && b.serial_runs == 0 {
        None
    } else if b.serial_runs == 0 {
        Some("fails "@ + parallel)
    } else if b.parallel_runs == 0 {
        Some("fails "@ + serial)
    } else if b.parallel_failures > 0 && b.serial_failures == 0 {
        Some("fails "@ + parallel + ", "@ + serial + " — likely concurrency-related"@)
    } else {
        Some("fails "@ + parallel + ", "@ + serial)
    }
}

impl ConcurrencyBreakdown {
    /// Whether one more run can be counted.
    pub open spec fn has_room(&self) -> bool {
        &&& self.serial_failures < usize::MAX
        &&& self.serial_runs < usize::MAX
        &&& self.parallel_failures < usize::MAX
        &&& self.parallel_runs < usize::MAX
        &&& self.unknown_failures < usize::MAX
        &&& self.unknown_runs < usize::MAX
    }

    /// Counts one more run with the given number of workers.
    pub fn record(&mut self, concurrency: Option<u32>, failure: bool)
        requires
            old(self).has_room(),
        ensures
            *final(self) == observed(*old(self), concurrency, failure),
    {
        let one: usize = if failure {
            1
        } else {
            0
        };
        match concurrency {
            None => {
                self.unknown_runs = self.unknown_runs + 1;
                self.unknown_failures = self.unknown_failures + one;
            },
            Some(c) => {
                if c <= 1 {
                    self.serial_runs = self.serial_runs + 1;
                    self.serial_failures = self.serial_failures + one;
                } else {
                    self.parallel_runs = self.parallel_runs + 1;
                    self.parallel_failures = self.parallel_failures + one;
                    let larger: u32 = match self.max_parallel_concurrency {
                        Some(m) => if m >= c {
                            m
                        } else {
                            c
                        },
                        None => c,
                    };
                    self.max_parallel_concurrency = Some(larger);
                }
            },
        }
    }

    /// What the counts tell, where anything is known.
    pub fn verdict(&self) -> (r: Option<String>)
        ensures
            match verdict_text(*self) {
                Some(t) => r matches Some(s) && s@ == t,
                None => r is None,
            },
    {
        if self.parallel_runs == 0 && self.serial_runs == 0 {
            return None;
        }
        let max: u32 = match self.max_parallel_concurrency {
            Some(m) => m,
            None => 0,
        };
        let mut parallel: String = cat5(
            count_text(self.parallel_failures).as_str(),
            "/",
            count_text(self.parallel_runs).as_str(),
            " in parallel (max -j ",
            decimal_text(max as u128).as_str(),
        );
        parallel.append(")");
        let serial: String = cat4(
            count_text(self.serial_failures).as_str(),
            "/",
            count_text(self.serial_runs).as_str(),
            " serially",
        );
        let mut s: String = "fails ".to_owned();
        if self.serial_runs == 0 {
            s.append(parallel.as_str());
        } else if self.parallel_runs == 0 {
            s.append(serial.as_str());
        } else {
            s.append(parallel.as_str());
            s.append(", ");
            s.append(serial.as_str());
            if self.parallel_failures > 0 && self.serial_failures == 0 {
                s.append(" — likely concurrency-related");
            }
        }
        Some(s)
    }
}

} // verus!
