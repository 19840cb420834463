//! The runs that have been recorded.

use vstd::prelude::*;
use vstd::string::*;

use crate::collection::{entry_of, has_key, keys_ascend, with_entry, with_entry_laws, Keyed, KeyedList, Named, TextMap};
use crate::error::{Error, Failure, Result};
use crate::gather::reversed;
use crate::repository::{no_metadata, failing_results, is_failure, run_names, test_names, RunId, RunMetadata, TestId, TestResult, TestRun};
use crate::text::number::{decimal, parse_usize, parsed_nat};
use crate::text::order::text_eq;
use crate::text::scan::{has_prefix, has_text, strip_prefix};
use crate::time::{Duration, Timestamp};

verus! {

broadcast use {
    crate::repository::test_names_push,
    crate::repository::run_names_push,
    crate::text::compose::texts_push,
};

/// A run with what is known of it.
#[derive(Debug)]
pub struct StoredRun {
    /// The results.
    pub run: TestRun,
    /// What is known besides the results.
    pub metadata: RunMetadata,
    /// When the run was started, where that was recorded.
    pub started_at: Option<Timestamp>,
    /// Whether the run is still going on.
    pub in_progress: bool,
    /// The tests in the order in which they were run.
    pub order: Vec<TestId>,
}

/// The recorded runs, the oldest first, the tests that fail, and how long tests usually take.
#[derive(Debug)]
pub struct Store {
    /// The runs, the oldest first.
    pub runs: Vec<StoredRun>,
    /// The tests that fail.
    pub failing: Vec<TestId>,
    /// How long tests took when they were last timed.
    pub times: TextMap<Duration>,
}

/// The names of recorded runs.
pub open spec fn stored_names(runs: Seq<StoredRun>) -> Seq<Seq<char>> {
    Seq::new(runs.len(), |i: int| runs[i].run.id@)
}

/// The position of the first run of a name; the number of runs where there is none.
pub open spec fn run_index(runs: Seq<StoredRun>, id: Seq<char>) -> int
    decreases runs.len(),
{
    if runs.len() == 0 || runs[0].run.id@ == id {
        0
    } else {
        1 + run_index(runs.drop_first(), id)
    }
}

/// Whether there is a run of a name.
pub open spec fn has_run(runs: Seq<StoredRun>, id: Seq<char>) -> bool {
    run_index(runs, id) < runs.len()
}

/// The run of a name.
pub open spec fn run_of(runs: Seq<StoredRun>, id: Seq<char>) -> StoredRun {
    runs[run_index(runs, id)]
}

/// The first position with a name is its index.
pub proof fn run_index_is(runs: Seq<StoredRun>, id: Seq<char>, i: int)
    requires
        0 <= i <= runs.len(),
        i < runs.len() ==> runs[i].run.id@ == id,
        forall|k: int| 0 <= k < i ==> (#[trigger] runs[k]).run.id@ != id,
    ensures
        run_index(runs, id) == i,
    decreases runs.len(),
{
    if i > 0 {
        assert(runs[0].run.id@ != id);
        let t = runs.drop_first();
        assert forall|k: int| 0 <= k < i - 1 implies (#[trigger] t[k]).run.id@ != id by {
            assert(t[k] == runs[k + 1]);
        }
        run_index_is(t, id, i - 1);
    }
}

/// The index of a name lies within the runs, at a run of that name.
pub proof fn run_index_bounds(runs: Seq<StoredRun>, id: Seq<char>)
    ensures
        0 <= run_index(runs, id) <= runs.len(),
        has_run(runs, id) ==> run_of(runs, id).run.id@ == id,
        forall|k: int| 0 <= k < run_index(runs, id) ==> (#[trigger] runs[k]).run.id@ != id,
    decreases runs.len(),
{
    if runs.len() > 0 && runs[0].run.id@ != id {
        let t = runs.drop_first();
        run_index_bounds(t, id);
        assert forall|k: int| 0 <= k < run_index(runs, id) implies (#[trigger] runs[k]).run.id@
            != id by {
            if k > 0 {
                assert(t[k - 1] == runs[k]);
            }
        }
    }
}

/// The names of results.
pub open spec fn result_names(s: Seq<TestResult>) -> Seq<Seq<char>> {
    Seq::new(s.len(), |i: int| s[i].test_id@)
}

/// The names of the runs that are going on.
pub open spec fn running_names(runs: Seq<StoredRun>) -> Seq<Seq<char>>
    decreases runs.len(),
{
    if runs.len() == 0 {
        Seq::empty()
    } else {
        let before = running_names(runs.drop_last());
        if runs.last().in_progress {
            before.push(runs.last().run.id@)
        } else {
            before
        }
    }
}

/// The runs that are going on are those that are marked so.
pub proof fn running_names_are(runs: Seq<StoredRun>, id: Seq<char>)
    ensures
        has_text(running_names(runs), id) <==> exists|i: int|
            0 <= i < runs.len() && (#[trigger] runs[i]).in_progress && runs[i].run.id@ == id,
    decreases runs.len(),
{
    let all = running_names(runs);
    if runs.len() > 0 {
        let init = runs.drop_last();
        let before = running_names(init);
        running_names_are(init, id);
        assert(runs[runs.len() - 1] == runs.last());
        if has_text(all, id) {
            let k = choose|k: int| 0 <= k < all.len() && #[trigger] all[k] == id;
            if k < before.len() {
                assert(before[k] == id);
                let i = choose|i: int|
                    0 <= i < init.len() && (#[trigger] init[i]).in_progress && init[i].run.id@ == id;
                assert(runs[i].in_progress && runs[i].run.id@ == id);
            } else {
                assert(runs[runs.len() - 1].in_progress);
            }
        }
        if exists|i: int|
            0 <= i < runs.len() && (#[trigger] runs[i]).in_progress && runs[i].run.id@ == id {
            let i = choose|i: int|
                0 <= i < runs.len() && (#[trigger] runs[i]).in_progress && runs[i].run.id@ == id;
            if i < init.len() {
                assert(init[i].in_progress && init[i].run.id@ == id);
                let k = choose|k: int| 0 <= k < before.len() && #[trigger] before[k] == id;
                assert(all[k] == id);
            } else {
                assert(all[all.len() - 1] == id);
            }
        }
    }
}

/// Where no run is named, the latest one is meant. A name means the run of that name, and it is an
/// error where there is none.
pub proof fn asked_run_is_recorded(runs: Seq<StoredRun>, id: Option<String>)
    requires
        id matches Some(s) ==> s@.len() == 0 || s@[0] != '-',
    ensures
        match asked_run(runs, id) {
            Ok(name) => {
                &&& exists|i: int| 0 <= i < runs.len() && (#[trigger] runs[i]).run.id@ == name
                &&& id matches Some(s) ==> name == s@
                &&& id is None ==> name == runs.last().run.id@
            },
            Err(f) => match id {
                Some(s) => f == Failure::TestRunNotFound(s@) && forall|i: int|
                    0 <= i < runs.len() ==> (#[trigger] runs[i]).run.id@ != s@,
                None => runs.len() == 0,
            },
        },
{
    let names = stored_names(runs);
    if let Some(s) = id {
        reveal_strlit("-");
        if has_prefix(s@, "-"@) {
            assert(s@.take(1)[0] == "-"@[0]);
        }
        run_index_bounds(runs, s@);
        if has_run(runs, s@) {
            assert(runs[run_index(runs, s@)].run.id@ == s@);
        }
    } else if runs.len() > 0 {
        run_index_bounds(runs, runs.last().run.id@);
        assert(runs[runs.len() - 1].run.id@ == names.last());
        assert(has_run(runs, names.last())) by {
            if run_index(runs, names.last()) >= runs.len() {
                assert(runs[runs.len() - 1].run.id@ != names.last());
            }
        }
    }
}

/// `times` with the durations of the first `n` results put in.
pub open spec fn with_times(times: Map<Seq<char>, nat>, s: Seq<TestResult>, n: nat) -> Map<
    Seq<char>,
    nat,
>
    decreases n,
{
    if n == 0 {
        times
    } else {
        let before = with_times(times, s, (n - 1) as nat);
        match s[n - 1].duration {
            Some(d) => before.insert(s[n - 1].test_id@, d@),
            None => before,
        }
    }
}

/// The durations under their names.
pub open spec fn times_map(s: Seq<Named<Duration>>) -> Map<Seq<char>, nat> {
    Map::new(|k: Seq<char>| has_key(s, k), |k: Seq<char>| entry_of(s, k).value@)
}

/// Putting a duration in a list of durations puts it in the map.
pub proof fn times_map_insert(s: Seq<Named<Duration>>, e: Named<Duration>)
    requires
        keys_ascend(s),
    ensures
        times_map(with_entry(s, e)) == times_map(s).insert(e.name@, e.value@),
{
    with_entry_laws(s, e);
    let a = times_map(with_entry(s, e));
    let b = times_map(s).insert(e.name@, e.value@);
    assert(e.key_text() == e.name@);
    assert forall|k: Seq<char>| #[trigger] a.dom().contains(k) == b.dom().contains(k) by {
        assert(k != e.name@ ==> has_key(with_entry(s, e), k) == has_key(s, k));
    }
    assert forall|k: Seq<char>| #[trigger] a.dom().contains(k) implies a[k] == b[k] by {
        if k != e.name@ {
            assert(has_key(s, k));
        }
    }
    assert(a =~= b);
}

/// `m` with the first `n` durations put in.
pub open spec fn with_lengths(m: Map<Seq<char>, nat>, s: Seq<Named<Duration>>, n: nat) -> Map<
    Seq<char>,
    nat,
>
    decreases n,
{
    if n == 0 {
        m
    } else {
        with_lengths(m, s, (n - 1) as nat).insert(s[n - 1].name@, s[n - 1].value@)
    }
}

/// What the first durations give a name.
proof fn with_lengths_at(m: Map<Seq<char>, nat>, s: Seq<Named<Duration>>, n: nat, k: Seq<char>)
    requires
        keys_ascend(s),
        n <= s.len(),
    ensures
        ({
            let w = with_lengths(m, s, n);
            let known = exists|i: int| 0 <= i < n && (#[trigger] s[i]).key_text() == k;
            &&& w.dom().contains(k) == (known || m.dom().contains(k))
            &&& known ==> w[k] == entry_of(s, k).value@
            &&& !known && m.dom().contains(k) ==> w[k] == m[k]
        }),
    decreases n,
{
    if n > 0 {
        with_lengths_at(m, s, (n - 1) as nat, k);
        crate::collection::entry_is_unique(s, n - 1);
        assert(s[n - 1].key_text() == s[n - 1].name@);
        if exists|i: int| 0 <= i < n - 1 && (#[trigger] s[i]).key_text() == k {
            let i = choose|i: int| 0 <= i < n - 1 && (#[trigger] s[i]).key_text() == k;
            assert(s[i].key_text() == k);
        }
    }
}

/// Putting all durations in takes over the whole list.
pub proof fn with_all_lengths(m: Map<Seq<char>, nat>, s: Seq<Named<Duration>>)
    requires
        keys_ascend(s),
    ensures
        with_lengths(m, s, s.len()) == m.union_prefer_right(times_map(s)),
{
    let a = with_lengths(m, s, s.len());
    let b = m.union_prefer_right(times_map(s));
    assert forall|k: Seq<char>| #[trigger] a.dom().contains(k) == b.dom().contains(k) && (
    a.dom().contains(k) ==> a[k] == b[k]) by {
        with_lengths_at(m, s, s.len(), k);
        assert(has_key(s, k) == exists|i: int|
            0 <= i < s.len() && (#[trigger] s[i]).key_text() == k);
    }
    assert(a =~= b);
}

/// The tests that fail are those whose results are failures.
pub proof fn failing_names_are(s: Seq<TestResult>, t: Seq<char>)
    requires
        keys_ascend(s),
    ensures
        failing_names(s).contains(t) <==> has_key(s, t) && is_failure(entry_of(s, t).status),
    decreases s.len(),
{
    let f = failing_names(s);
    if s.len() > 0 {
        let init = s.drop_last();
        let before = failing_names(init);
        assert(keys_ascend(init)) by {
            assert forall|i: int, j: int| 0 <= i < j < init.len() implies crate::text::order::text_lt(
                (#[trigger] init[i]).key_text(),
                (#[trigger] init[j]).key_text(),
            ) by {
                assert(s[i].key_text() == init[i].key_text() && s[j].key_text()
                    == init[j].key_text());
            }
        }
        failing_names_are(init, t);
        let last = s.last();
        crate::collection::entry_is_unique(s, s.len() - 1);
        assert(s[s.len() - 1].key_text() == last.test_id@);
        if is_failure(last.status) {
            assert(f =~= before.push(last.test_id@));
            assert(f[f.len() - 1] == last.test_id@);
        } else {
            assert(f =~= before);
        }
        assert forall|i: int| 0 <= i < before.len() implies f.contains(#[trigger] before[i]) by {
            assert(f[i] == before[i]);
        }
        if f.contains(t) && t != last.test_id@ {
            let i = choose|i: int| 0 <= i < f.len() && f[i] == t;
            assert(i < before.len());
            assert(before[i] == t);
        }
        if has_key(init, t) {
            let i = choose|i: int| 0 <= i < init.len() && (#[trigger] init[i]).key_text() == t;
            assert(s[i].key_text() == t);
            crate::collection::entry_is_unique(s, i);
            crate::collection::entry_is_unique(init, i);
            assert(s[i].key_text() != last.key_text()) by {
                crate::text::order::text_lt_irreflexive(t);
                assert(crate::text::order::text_lt(
                    s[i].key_text(),
                    s[s.len() - 1].key_text(),
                ));
            }
        }
        if has_key(s, t) && t != last.test_id@ {
            let i = choose|i: int| 0 <= i < s.len() && (#[trigger] s[i]).key_text() == t;
            assert(i < init.len());
            assert(init[i].key_text() == t);
            assert(has_key(init, t));
        }
        if t == last.test_id@ && f.contains(t) && !is_failure(last.status) {
            let i = choose|i: int| 0 <= i < f.len() && f[i] == t;
            assert(before[i] == t);
            assert(before.contains(t));
            assert(has_key(init, t));
        }
    }
}

/// After a run that covers some tests, a test fails exactly if the run has a failure of it, or if it
/// failed before and the run has no result of it.
pub proof fn partial_run_updates_what_it_covers(
    known: Seq<Seq<char>>,
    s: Seq<TestResult>,
    t: Seq<char>,
)
    requires
        keys_ascend(s),
    ensures
        updated_failing(known, s).contains(t) <==> if has_key(s, t) {
            is_failure(entry_of(s, t).status)
        } else {
            known.contains(t)
        },
{
    let a = still_failing(known, s);
    let b = failing_names(s);
    let all = updated_failing(known, s);
    failing_names_are(s, t);
    still_failing_is(known, s, t);
    if all.contains(t) {
        let i = choose|i: int| 0 <= i < all.len() && all[i] == t;
        if i < a.len() {
            assert(a[i] == t);
            assert(a.contains(t));
        } else {
            assert(b[i - a.len()] == t);
            assert(b.contains(t));
        }
    }
    if a.contains(t) {
        let i = choose|i: int| 0 <= i < a.len() && a[i] == t;
        assert(all[i] == t);
    }
    if b.contains(t) {
        let i = choose|i: int| 0 <= i < b.len() && b[i] == t;
        assert(all[i + a.len()] == t);
    }
}

proof fn still_failing_is(known: Seq<Seq<char>>, s: Seq<TestResult>, t: Seq<char>)
    ensures
        still_failing(known, s).contains(t) <==> known.contains(t) && !has_key(s, t),
    decreases known.len(),
{
    let all = still_failing(known, s);
    if known.len() > 0 {
        let init = known.drop_last();
        let before = still_failing(init, s);
        still_failing_is(init, s, t);
        assert(known[known.len() - 1] == known.last());
        if known.contains(t) {
            let i = choose|i: int| 0 <= i < known.len() && known[i] == t;
            if i < init.len() {
                assert(init[i] == t);
            }
        }
        if init.contains(t) {
            let i = choose|i: int| 0 <= i < init.len() && init[i] == t;
            assert(known[i] == t);
        }
        if all.contains(t) {
            let i = choose|i: int| 0 <= i < all.len() && all[i] == t;
            if i < before.len() {
                assert(before[i] == t);
            }
        }
        if before.contains(t) {
            let i = choose|i: int| 0 <= i < before.len() && before[i] == t;
            assert(all[i] == t);
        }
        if all.len() > before.len() {
            assert(all[all.len() - 1] == known.last());
        }
    }
}

/// After a run, the usual duration of a test is that of its result in the run, where it has one
/// with a duration, and what it was before otherwise.
pub proof fn latest_durations_are_kept(
    times: Map<Seq<char>, nat>,
    s: Seq<TestResult>,
    n: nat,
    t: Seq<char>,
)
    requires
        n <= s.len(),
        forall|i: int, j: int|
            0 <= i < j < s.len() ==> (#[trigger] s[i]).test_id@ != (#[trigger] s[j]).test_id@,
    ensures
        forall|i: int|
            0 <= i < n && (#[trigger] s[i]).test_id@ == t && s[i].duration is Some ==> with_times(
                times,
                s,
                n,
            ).dom().contains(t) && with_times(times, s, n)[t] == s[i].duration->0@,
        (forall|i: int|
            0 <= i < n ==> (#[trigger] s[i]).test_id@ != t || s[i].duration is None) ==> with_times(
            times,
            s,
            n,
        ).dom().contains(t) == times.dom().contains(t) && (times.dom().contains(t) ==> with_times(
            times,
            s,
            n,
        )[t] == times[t]),
    decreases n,
{
    if n > 0 {
        latest_durations_are_kept(times, s, (n - 1) as nat, t);
        assert(s[n - 1].test_id@ == s[n - 1].test_id@);
    }
}

/// The tests that fail after a run that covers all tests.
pub open spec fn failing_names(s: Seq<TestResult>) -> Seq<Seq<char>> {
    result_names(failing_results(s))
}

/// The names of `known` that the results do not tell to have passed.
pub open spec fn still_failing(known: Seq<Seq<char>>, s: Seq<TestResult>) -> Seq<Seq<char>>
    decreases known.len(),
{
    if known.len() == 0 {
        Seq::empty()
    } else {
        let before = still_failing(known.drop_last(), s);
        if has_key(s, known.last()) {
            before
        } else {
            before.push(known.last())
        }
    }
}

/// The tests that fail after a run that covers some tests: those that the run does not cover, and
/// those that it finds to fail.
pub open spec fn updated_failing(known: Seq<Seq<char>>, s: Seq<TestResult>) -> Seq<Seq<char>> {
    still_failing(known, s) + failing_names(s)
}

/// References to results.
pub open spec fn refs(s: Seq<TestResult>) -> Seq<&'static TestResult> {
    Seq::new(s.len(), |i: int| &s[i])
}

/// The failures among results.
pub fn collect_failures<'a>(v: &'a Vec<TestResult>) -> (r: Vec<&'a TestResult>)
    ensures
        r@ == refs(failing_results(v@)),
{
    let mut r: Vec<&'a TestResult> = Vec::new();
    assert(r@ =~= refs(failing_results(v@.take(0))));
    for i in 0..v.len()
        invariant
            r@ == refs(failing_results(v@.take(i as int))),
    {
        assert(v@.take(i + 1).drop_last() =~= v@.take(i as int));
        if v[i].status.is_failure() {
            r.push(&v[i]);
        }
        assert(r@ =~= refs(failing_results(v@.take(i + 1))));
    }
    assert(v@.take(v@.len() as int) =~= v@);
    r
}

/// The tests of a run.
fn tests_in(run: &TestRun) -> (r: Vec<TestId>)
    ensures
        test_names(r@) == result_names(run.results@),
{
    let v: &Vec<TestResult> = run.results.entries();
    let mut r: Vec<TestId> = Vec::new();
    for i in 0..v.len()
        invariant
            test_names(r@) =~= result_names(v@).take(i as int),
    {
        r.push(v[i].test_id.copy());
    }
    assert(test_names(r@) =~= result_names(run.results@));
    r
}

/// The tests that fail, by name.
fn failing_test_ids(run: &TestRun) -> (r: Vec<TestId>)
    ensures
        test_names(r@) == failing_names(run.results@),
{
    let v: &Vec<TestResult> = run.results.entries();
    let failures: Vec<&TestResult> = collect_failures(v);
    let ghost all = failing_results(run.results@);
    let mut r: Vec<TestId> = Vec::new();
    for i in 0..failures.len()
        invariant
            failures@ == refs(all),
            test_names(r@) =~= result_names(all).take(i as int),
    {
        assert(all[i as int] == *failures@[i as int]);
        r.push(failures[i].test_id.copy());
    }
    assert(test_names(r@) =~= result_names(all));
    r
}

/// References to runs.
pub open spec fn run_refs(s: Seq<StoredRun>) -> Seq<&'static StoredRun> {
    Seq::new(s.len(), |i: int| &s[i])
}

impl Store {
    /// The runs, the oldest first.
    pub fn all_runs<'a>(&'a self) -> (r: Vec<&'a StoredRun>)
        ensures
            r@ == run_refs(self.runs@),
    {
        let mut r: Vec<&'a StoredRun> = Vec::new();
        for i in 0..self.runs.len()
            invariant
                r@ =~= run_refs(self.runs@).take(i as int),
        {
            r.push(&self.runs[i]);
        }
        assert(r@ =~= run_refs(self.runs@));
        r
    }

    /// A store without runs.
    pub fn new() -> (r: Store)
        ensures
            r.runs@.len() == 0,
            r.failing@.len() == 0,
            r.times@.len() == 0,
    {
        Store { runs: Vec::new(), failing: Vec::new(), times: KeyedList::new() }
    }

    /// How many runs there are.
    pub fn count(&self) -> (n: usize)
        ensures
            n == self.runs@.len(),
    {
        self.runs.len()
    }

    /// The names of the runs, the oldest first.
    pub fn list_run_ids(&self) -> (r: Vec<RunId>)
        ensures
            run_names(r@) == stored_names(self.runs@),
            r@.len() == self.runs@.len(),
    {
        let mut r: Vec<RunId> = Vec::new();
        for i in 0..self.runs.len()
            invariant
                run_names(r@) =~= stored_names(self.runs@).take(i as int),
                r@.len() == i,
        {
            r.push(self.runs[i].run.id.copy());
        }
        assert(run_names(r@) =~= stored_names(self.runs@));
        r
    }

    /// The position of the run of a name.
    fn position(&self, id: &str) -> (r: usize)
        ensures
            r == run_index(self.runs@, id@),
            r <= self.runs@.len(),
    {
        let mut i: usize = 0;
        while i < self.runs.len() && !text_eq(self.runs[i].run.id.as_str(), id)
            invariant
                i <= self.runs@.len(),
                forall|k: int| 0 <= k < i ==> (#[trigger] self.runs@[k]).run.id@ != id@,
            decreases self.runs@.len() - i,
        {
            i += 1;
        }
        proof {
            run_index_is(self.runs@, id@, i as int);
        }
        i
    }

    /// The run of a name with what is known of it.
    pub fn find(&self, id: &str) -> (r: Option<&StoredRun>)
        ensures
            r is Some <==> has_run(self.runs@, id@),
            r matches Some(s) ==> *s == run_of(self.runs@, id@),
    {
        let i: usize = self.position(id);
        if i < self.runs.len() {
            Some(&self.runs[i])
        } else {
            None
        }
    }

    /// The results of the run of a name.
    pub fn get_test_run(&self, id: &RunId) -> (r: Result<&TestRun>)
        ensures
            match r {
                Ok(t) => has_run(self.runs@, id@) && *t == run_of(self.runs@, id@).run,
                Err(e) => !has_run(self.runs@, id@) && e@ == Failure::TestRunNotFound(id@),
            },
    {
        match self.find(id.as_str()) {
            Some(s) => Ok(&s.run),
            None => Err(Error::TestRunNotFound(id.as_str().to_owned())),
        }
    }

    /// The name of the latest run.
    pub fn latest_run_id(&self) -> (r: Result<RunId>)
        ensures
            match r {
                Ok(id) => self.runs@.len() > 0 && id@ == self.runs@.last().run.id@,
                Err(e) => self.runs@.len() == 0 && e@ == Failure::Other("No test runs found"@),
            },
    {
        let n: usize = self.runs.len();
        if n == 0 {
            Err(Error::Other("No test runs found".to_owned()))
        } else {
            Ok(self.runs[n - 1].run.id.copy())
        }
    }

    /// The names of the runs that are going on.
    pub fn get_running_run_ids(&self) -> (r: Vec<RunId>)
        ensures
            run_names(r@) == running_names(self.runs@),
    {
        let mut r: Vec<RunId> = Vec::new();
        assert(run_names(r@) =~= running_names(self.runs@.take(0)));
        for i in 0..self.runs.len()
            invariant
                run_names(r@) == running_names(self.runs@.take(i as int)),
        {
            assert(self.runs@.take(i + 1).drop_last() =~= self.runs@.take(i as int));
            if self.runs[i].in_progress {
                r.push(self.runs[i].run.id.copy());
            }
        }
        assert(self.runs@.take(self.runs@.len() as int) =~= self.runs@);
        r
    }

    /// Puts the durations of a run into the usual durations.
    pub fn update_test_times(&mut self, run: &TestRun)
        ensures
            times_map(final(self).times@) == with_times(
                times_map(old(self).times@),
                run.results@,
                run.results@.len(),
            ),
            final(self).runs == old(self).runs,
            final(self).failing == old(self).failing,
    {
        let v: &Vec<TestResult> = run.results.entries();
        let ghost before = times_map(self.times@);
        for i in 0..v.len()
            invariant
                v@ == run.results@,
                self.runs == old(self).runs,
                self.failing == old(self).failing,
                times_map(self.times@) == with_times(before, v@, i as nat),
        {
            if let Some(d) = v[i].duration {
                let e: Named<Duration> = Named {
                    name: v[i].test_id.as_str().to_owned(),
                    value: d,
                };
                let ghost g = e;
                let ghost earlier = self.times@;
                let _ = self.times.entries();
                assert(keys_ascend(earlier));
                self.times.put(e);
                proof {
                    times_map_insert(earlier, g);
                }
            }
        }
    }

    /// Takes usual durations over.
    pub fn take_times(&mut self, times: &TextMap<Duration>)
        ensures
            times_map(final(self).times@) == times_map(old(self).times@).union_prefer_right(
                times_map(times@),
            ),
            final(self).runs == old(self).runs,
            final(self).failing == old(self).failing,
    {
        let v: &Vec<Named<Duration>> = times.entries();
        let ghost before = times_map(self.times@);
        for i in 0..v.len()
            invariant
                self.runs == old(self).runs,
                self.failing == old(self).failing,
                times_map(self.times@) == with_lengths(before, v@, i as nat),
        {
            let e: Named<Duration> = Named { name: v[i].name.clone(), value: v[i].value };
            let ghost g = e;
            let ghost earlier = self.times@;
            let _ = self.times.entries();
            self.times.put(e);
            proof {
                times_map_insert(earlier, g);
            }
        }
        proof {
            with_all_lengths(before, v@);
        }
    }

    /// The tests that fail are those that the run finds to fail.
    pub fn replace_failing_tests(&mut self, run: &TestRun)
        ensures
            test_names(final(self).failing@) == failing_names(run.results@),
            final(self).runs == old(self).runs,
            final(self).times == old(self).times,
    {
        self.failing = failing_test_ids(run);
    }

    /// The tests that fail are those that failed before and are not part of the run, and those
    /// that the run finds to fail.
    pub fn update_failing_tests(&mut self, run: &TestRun)
        ensures
            test_names(final(self).failing@) == updated_failing(
                test_names(old(self).failing@),
                run.results@,
            ),
            final(self).runs == old(self).runs,
            final(self).times == old(self).times,
    {
        let ghost known = test_names(self.failing@);
        let mut r: Vec<TestId> = Vec::new();
        assert(test_names(r@) =~= still_failing(known.take(0), run.results@));
        for i in 0..self.failing.len()
            invariant
                known == test_names(self.failing@),
                self.runs == old(self).runs,
                self.times == old(self).times,
                test_names(r@) == still_failing(known.take(i as int), run.results@),
        {
            assert(known.take(i + 1).drop_last() =~= known.take(i as int));
            if !run.results.contains_key(self.failing[i].as_str()) {
                r.push(self.failing[i].copy());
            }
        }
        assert(known.take(known.len() as int) =~= known);
        let ghost kept = r@;
        let mut more: Vec<TestId> = failing_test_ids(run);
        let ghost added = more@;
        r.append(&mut more);
        assert(test_names(r@) =~= test_names(kept) + test_names(added));
        self.failing = r;
    }

    /// Records a run. The tests that fail and the usual durations are brought up to date.
    pub fn insert_test_run(&mut self, run: TestRun) -> (id: RunId)
        ensures
            id@ == run.id@,
            final(self).runs@.len() == old(self).runs@.len() + 1,
            final(self).runs@.drop_last() == old(self).runs@,
            final(self).runs@.last().run == run,
            final(self).runs@.last().metadata == no_metadata(),
            final(self).runs@.last().started_at == Some(run.timestamp),
            !final(self).runs@.last().in_progress,
            test_names(final(self).runs@.last().order@) == result_names(run.results@),
            test_names(final(self).failing@) == failing_names(run.results@),
            times_map(final(self).times@) == with_times(
                times_map(old(self).times@),
                run.results@,
                run.results@.len(),
            ),
    {
        self.replace_failing_tests(&run);
        self.update_test_times(&run);
        let order: Vec<TestId> = tests_in(&run);
        let id: RunId = run.id.copy();
        let started: Timestamp = run.timestamp;
        self.runs.push(
            StoredRun {
                run,
                metadata: RunMetadata::default(),
                started_at: Some(started),
                in_progress: false,
                order,
            },
        );
        assert(self.runs@.drop_last() =~= old(self).runs@);
        id
    }

    /// Sets what is known of a run besides its results. A run that has not been recorded is added.
    pub fn keep_metadata(&mut self, run: TestRun, metadata: RunMetadata)
        ensures
            has_run(old(self).runs@, run.id@) ==> final(self).runs@ == old(self).runs@.update(
                run_index(old(self).runs@, run.id@),
                StoredRun { metadata, ..run_of(old(self).runs@, run.id@) },
            ),
            !has_run(old(self).runs@, run.id@) ==> {
                &&& final(self).runs@.len() == old(self).runs@.len() + 1
                &&& final(self).runs@.drop_last() == old(self).runs@
                &&& final(self).runs@.last().run == run
                &&& final(self).runs@.last().metadata == metadata
                &&& final(self).runs@.last().started_at == Some(run.timestamp)
                &&& !final(self).runs@.last().in_progress
                &&& test_names(final(self).runs@.last().order@) == result_names(run.results@)
            },
            final(self).failing == old(self).failing,
            final(self).times == old(self).times,
    {
        let i: usize = self.position(run.id.as_str());
        if i < self.runs.len() {
            self.runs[i].metadata = metadata;
            assert(self.runs@ =~= old(self).runs@.update(
                i as int,
                StoredRun { metadata, ..old(self).runs@[i as int] },
            ));
            return;
        }
        let order: Vec<TestId> = tests_in(&run);
        let started: Timestamp = run.timestamp;
        self.runs.push(
            StoredRun { run, metadata, started_at: Some(started), in_progress: false, order },
        );
        assert(self.runs@.drop_last() =~= old(self).runs@);
    }

    /// Sets what is known of the run of a name besides its results.
    pub fn set_run_metadata(&mut self, id: &RunId, metadata: RunMetadata) -> (r: Result<()>)
        ensures
            match r {
                Ok(_) => has_run(old(self).runs@, id@) && final(self).runs@ == old(
                    self,
                ).runs@.update(
                    run_index(old(self).runs@, id@),
                    StoredRun { metadata, ..run_of(old(self).runs@, id@) },
                ),
                Err(e) => !has_run(old(self).runs@, id@) && e@ == Failure::TestRunNotFound(id@)
                    && final(self).runs == old(self).runs,
            },
            final(self).failing == old(self).failing,
            final(self).times == old(self).times,
    {
        let i: usize = self.position(id.as_str());
        if i >= self.runs.len() {
            return Err(Error::TestRunNotFound(id.as_str().to_owned()));
        }
        self.runs[i].metadata = metadata;
        assert(self.runs@ =~= old(self).runs@.update(
            i as int,
            StoredRun { metadata, ..old(self).runs@[i as int] },
        ));
        Ok(())
    }
}

/// The runs without those of given names.
pub open spec fn kept_runs(runs: Seq<StoredRun>, ids: Seq<Seq<char>>) -> Seq<StoredRun>
    decreases runs.len(),
{
    if runs.len() == 0 {
        Seq::empty()
    } else {
        let before = kept_runs(runs.drop_last(), ids);
        if has_text(ids, runs.last().run.id@) {
            before
        } else {
            before.push(runs.last())
        }
    }
}

/// The latest run with a result of a test.
pub open spec fn holder(runs: Seq<StoredRun>, t: Seq<char>) -> Option<Seq<char>>
    decreases runs.len(),
{
    if runs.len() == 0 {
        None
    } else if has_key(runs.last().run.results@, t) {
        Some(runs.last().run.id@)
    } else {
        holder(runs.drop_last(), t)
    }
}

/// Whether the latest result of a test goes with the runs of given names.
pub open spec fn loses_result(runs: Seq<StoredRun>, ids: Seq<Seq<char>>, t: Seq<char>) -> bool {
    holder(runs, t) is Some && has_text(ids, holder(runs, t)->0)
}

/// The tests whose latest results do not go with the runs of given names.
pub open spec fn kept_failing(
    names: Seq<Seq<char>>,
    runs: Seq<StoredRun>,
    ids: Seq<Seq<char>>,
) -> Seq<Seq<char>>
    decreases names.len(),
{
    if names.len() == 0 {
        Seq::empty()
    } else {
        let before = kept_failing(names.drop_last(), runs, ids);
        if loses_result(runs, ids, names.last()) {
            before
        } else {
            before.push(names.last())
        }
    }
}

/// The names of recorded runs among given names, each once.
pub open spec fn known_runs(ids: Seq<Seq<char>>, runs: Seq<StoredRun>) -> Seq<Seq<char>>
    decreases ids.len(),
{
    if ids.len() == 0 {
        Seq::empty()
    } else {
        let before = known_runs(ids.drop_last(), runs);
        if has_run(runs, ids.last()) && !has_text(before, ids.last()) {
            before.push(ids.last())
        } else {
            before
        }
    }
}

/// Whether one of the runs has a name.
pub(crate) fn names_run(ids: &Vec<RunId>, name: &str) -> (r: bool)
    ensures
        r == has_text(run_names(ids@), name@),
{
    for i in 0..ids.len()
        invariant
            forall|k: int| 0 <= k < i ==> (#[trigger] run_names(ids@)[k]) != name@,
    {
        if text_eq(ids[i].as_str(), name) {
            assert(run_names(ids@)[i as int] == name@);
            return true;
        }
    }
    false
}

impl Store {
    /// Whether the run of a name is going on.
    pub fn is_run_in_progress(&self, id: &str) -> (r: bool)
        ensures
            r == (has_run(self.runs@, id@) && run_of(self.runs@, id@).in_progress),
    {
        match self.find(id) {
            Some(s) => s.in_progress,
            None => false,
        }
    }

    /// Whether the latest result of a test goes with given runs.
    fn loses(&self, ids: &Vec<RunId>, t: &str) -> (r: bool)
        ensures
            r == loses_result(self.runs@, run_names(ids@), t@),
    {
        let n: usize = self.runs.len();
        let mut i: usize = n;
        assert(self.runs@.take(n as int) =~= self.runs@);
        while i > 0 && !self.runs[i - 1].run.results.contains_key(t)
            invariant
                i <= n == self.runs@.len(),
                holder(self.runs@.take(i as int), t@) == holder(self.runs@, t@),
            decreases i,
        {
            assert(self.runs@.take(i as int).drop_last() =~= self.runs@.take(i - 1));
            i -= 1;
        }
        if i == 0 {
            false
        } else {
            names_run(ids, self.runs[i - 1].run.id.as_str())
        }
    }

    /// Drops runs, and with them the tests whose failures they recorded last. Gives the runs that
    /// were dropped.
    pub fn prune_runs(&mut self, ids: &Vec<RunId>) -> (r: Vec<RunId>)
        ensures
            run_names(r@) == known_runs(run_names(ids@), old(self).runs@),
            final(self).runs@ == kept_runs(old(self).runs@, run_names(ids@)),
            test_names(final(self).failing@) == kept_failing(
                test_names(old(self).failing@),
                old(self).runs@,
                run_names(ids@),
            ),
            final(self).times == old(self).times,
    {
        let ghost names = run_names(ids@);
        let ghost before = self.runs@;
        let mut r: Vec<RunId> = Vec::new();
        assert(run_names(r@) =~= known_runs(names.take(0), before));
        for i in 0..ids.len()
            invariant
                names == run_names(ids@),
                before == self.runs@,
                self == old(self),
                run_names(r@) == known_runs(names.take(i as int), before),
        {
            assert(names.take(i + 1).drop_last() =~= names.take(i as int));
            let id: &str = ids[i].as_str();
            if self.find(id).is_some() && !names_run(&r, id) {
                r.push(ids[i].copy());
            }
        }
        assert(names.take(names.len() as int) =~= names);
        let ghost known = test_names(self.failing@);
        let mut failing: Vec<TestId> = Vec::new();
        assert(test_names(failing@) =~= kept_failing(known.take(0), before, names));
        for i in 0..self.failing.len()
            invariant
                names == run_names(ids@),
                before == self.runs@,
                self == old(self),
                known == test_names(self.failing@),
                test_names(failing@) == kept_failing(known.take(i as int), before, names),
        {
            assert(known.take(i + 1).drop_last() =~= known.take(i as int));
            if !self.loses(ids, self.failing[i].as_str()) {
                failing.push(self.failing[i].copy());
            }
        }
        assert(known.take(known.len() as int) =~= known);
        self.failing = failing;
        let mut runs: Vec<StoredRun> = Vec::new();
        core::mem::swap(&mut self.runs, &mut runs);
        let mut kept: Vec<StoredRun> = Vec::new();
        let n: usize = runs.len();
        let ghost all = runs@;
        assert(all.take(n as int) =~= all);
        assert(kept@.reverse() =~= Seq::<StoredRun>::empty());
        while runs.len() > 0
            invariant
                all == before,
                names == run_names(ids@),
                runs@.len() <= all.len(),
                runs@ == all.take(runs@.len() as int),
                kept_runs(runs@, names) + kept@.reverse() =~= kept_runs(all, names),
            decreases runs@.len(),
        {
            let ghost left = runs@;
            let ghost done = kept@;
            assert(left.drop_last() =~= all.take(left.len() - 1));
            if let Some(run) = runs.pop() {
                if !names_run(ids, run.run.id.as_str()) {
                    kept.push(run);
                    assert(kept@.reverse() =~= seq![left.last()] + done.reverse());
                }
            }
        }
        assert(kept_runs(runs@, names) =~= Seq::<StoredRun>::empty());
        self.runs = reversed(kept);
        assert(self.runs@ =~= kept_runs(before, names));
        r
    }
}

/// Which run is meant by a name that may be an offset from the latest run, such as `-1`.
pub open spec fn resolved_run(names: Seq<Seq<char>>, id: Option<Seq<char>>) -> core::result::Result<
    Seq<char>,
    Failure,
> {
    match id {
        None => if names.len() == 0 {
            Err(Failure::Other("No test runs found"@))
        } else {
            Ok(names.last())
        },
        Some(s) => {
            let offset = if has_prefix(s, "-"@) {
                parsed_nat(s.skip(1))
            } else {
                None
            };
            match offset {
                Some(n) if n <= usize::MAX => if n == 0 {
                    Err(
                        Failure::Other("Run index -0 is not valid; use -1 for the latest run"@),
                    )
                } else if n > names.len() {
                    Err(Failure::TestRunNotFound(s))
                } else {
                    Ok(names[names.len() - n])
                },
                _ => Ok(s),
            }
        },
    }
}

/// Which run is meant: the latest one where nothing is said, the one so many runs back for a
/// negative number, else the run of that name.
pub fn resolve_run_id(store: &Store, run_id: Option<&str>) -> (r: Result<RunId>)
    ensures
        match resolved_run(
            stored_names(store.runs@),
            match run_id {
                Some(s) => Some(s@),
                None => None,
            },
        ) {
            Ok(id) => r matches Ok(v) && v@ == id,
            Err(f) => r matches Err(e) && e@ == f,
        },
{
    match run_id {
        None => store.latest_run_id(),
        Some(s) => {
            proof {
                reveal_strlit("-");
            }
            if let Some(rest) = strip_prefix(s, "-") {
                if let Some(offset) = parse_usize(rest.as_str()) {
                    if offset == 0 {
                        return Err(
                            Error::Other(
                                "Run index -0 is not valid; use -1 for the latest run".to_owned(),
                            ),
                        );
                    }
                    if offset > store.runs.len() {
                        return Err(Error::TestRunNotFound(s.to_owned()));
                    }
                    return Ok(store.runs[store.runs.len() - offset].run.id.copy());
                }
            }
            Ok(RunId::new(s))
        },
    }
}

/// The run that is asked for, where it has been recorded.
pub open spec fn asked_run(runs: Seq<StoredRun>, id: Option<String>) -> core::result::Result<
    Seq<char>,
    Failure,
> {
    let wanted = match id {
        Some(s) => Some(s@),
        None => None,
    };
    match resolved_run(stored_names(runs), wanted) {
        Ok(name) => if has_run(runs, name) {
            Ok(name)
        } else {
            Err(Failure::TestRunNotFound(name))
        },
        Err(f) => Err(f),
    }
}

/// The run that is asked for, with its results.
pub fn open_run<'a>(store: &'a Store, id: &Option<String>) -> (r: Result<(RunId, &'a TestRun)>)
    ensures
        match asked_run(store.runs@, *id) {
            Ok(name) => r matches Ok((v, t)) && v@ == name && *t == run_of(store.runs@, name).run,
            Err(f) => r matches Err(e) && e@ == f,
        },
{
    let wanted: Option<&str> = match id {
        Some(s) => Some(s.as_str()),
        None => None,
    };
    match resolve_run_id(store, wanted) {
        Err(e) => Err(e),
        Ok(run_id) => match store.get_test_run(&run_id) {
            Ok(run) => Ok((run_id, run)),
            Err(e) => Err(e),
        },
    }
}

/// An offset counts back from the latest run: `-1` is the latest one, `-2` the one before it. An
/// offset beyond the oldest run names none.
pub proof fn offsets_count_back(names: Seq<Seq<char>>, n: nat)
    requires
        0 < n <= usize::MAX,
    ensures
        match resolved_run(names, Some("-"@ + decimal(n))) {
            Ok(id) => exists|i: int|
                0 <= i < names.len() && #[trigger] names[i] == id && names.len() - i == n,
            Err(f) => n > names.len() && f == Failure::TestRunNotFound("-"@ + decimal(n)),
        },
        n <= names.len() ==> resolved_run(names, Some("-"@ + decimal(n))) is Ok,
{
    let s = "-"@ + decimal(n);
    crate::text::number::decimal_round_trip(n);
    reveal_strlit("-");
    assert(s.take(1) =~= "-"@);
    assert(s.skip(1) =~= decimal(n));
    if n <= names.len() {
        assert(names[names.len() - n] == resolved_run(names, Some(s))->Ok_0);
    }
}

/// `-1` names the latest run.
pub proof fn minus_one_is_latest(names: Seq<Seq<char>>)
    requires
        names.len() > 0,
    ensures
        resolved_run(names, Some("-1"@)) == resolved_run(names, None),
{
    reveal_strlit("-1");
    reveal_strlit("-");
    let s = "-1"@;
    assert(s.take(1) =~= "-"@);
    assert(s.skip(1) =~= decimal(1));
    crate::text::number::decimal_round_trip(1);
}

} // verus!
