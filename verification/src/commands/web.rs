//! What is shown of recorded runs on a page, and how runs are started from it.

use vstd::prelude::*;
use vstd::string::*;

use crate::binary::{mean_seconds, Binary};
use crate::collection::{entry_of, has_key, with_entry_laws, KeyedList, Named, TextMap, Keyed};
use crate::commands::ci_report::among;
use crate::commands::ci::{recorded_spans, span_part};
use crate::commands::Command;
use crate::config::file::{profile_keys, ConfigFile};
use crate::config::layer::optional_text;
use crate::error::{Error, Failure, Result};
use crate::flakiness::{count_history, failures_in, history, history_of, is_ranking, lists_tests, names_ascend, ranked_tests, records, seen_in, tests_of, Record, TestFlakiness};
use crate::gather::{append_texts, gathered};
use crate::grouping::{group_list, group_tests, groups_of, TestGroup};
use crate::pattern::regex_error;
use crate::repository::{failure_count, test_names, TestId, TestResult, TestRun, TestStatus};
use crate::sort::{is_order, order_of, positions, sorted_order, SortKey};
use crate::store::{has_run, run_of, run_refs, Store, StoredRun};
use crate::text::compose::{cat2, cat3, clone_texts, join, join_terminated, joined, terminated, texts};
use crate::text::number::{count_text, decimal, decimal_text};
use crate::time::{Duration, MAX_NANOS};
use crate::totals::{sum_grows, sum_joins, sum_of};
use crate::ui::{outputs, Transcript};

verus! {

broadcast use {crate::text::compose::texts_push, crate::repository::test_names_push};

/// Command that starts a server for pages.
#[derive(Debug)]
pub struct WebCommand {
    /// Where the project is.
    pub base_path: Option<String>,
    /// The address to listen at.
    pub bind: String,
    /// The port to listen at.
    pub port: u16,
    /// Whether to open a browser.
    pub open: bool,
}

impl WebCommand {
    /// A command that listens at an address and a port.
    pub fn new(base_path: Option<String>, bind: String, port: u16, open: bool) -> (r: Self)
        ensures
            r == (WebCommand { base_path, bind, port, open }),
    {
        WebCommand { base_path, bind, port, open }
    }

    /// Says where the server listens, and gives the address with the port.
    pub fn announce(&self, ui: &mut Transcript) -> (addr: String)
        ensures
            addr@ == self.bind@ + ":"@ + decimal(self.port as nat),
            final(ui)@ == old(ui)@ + outputs(
                seq![
                    "inq web listening on "@ + ("http://"@ + addr@ + "/"@),
                    "Press Ctrl-C to stop."@,
                ],
            ),
    {
        let addr: String = cat3(self.bind.as_str(), ":", decimal_text(self.port as u128).as_str());
        let url: String = cat3("http://", addr.as_str(), "/");
        let line: String = cat2("inq web listening on ", url.as_str());
        ui.output(line.as_str());
        ui.output("Press Ctrl-C to stop.");
        assert(ui@ =~= old(ui)@ + outputs(seq![line@, "Press Ctrl-C to stop."@]));
        addr
    }
}

impl Command for WebCommand {
    fn name(&self) -> (r: &str)
        ensures
            r@ == "web"@,
    {
        "web"
    }

    fn help(&self) -> (r: &str)
        ensures
            r@ == "Start a web UI for browsing tests and runs"@,
    {
        "Start a web UI for browsing tests and runs"
    }
}

/// A mean that is not computed yet: a sum of durations and their number.
#[derive(Clone, Copy, Debug)]
pub struct Mean {
    /// The sum.
    pub total: Duration,
    /// The number, at least one.
    pub count: usize,
}

/// Whether `m` is the mean of durations, where there are any.
pub open spec fn is_mean(m: Option<Mean>, spans: Seq<nat>) -> bool {
    match m {
        None => spans.len() == 0,
        Some(m) => m.count > 0 && m.count == spans.len() && m.total@ == sum_of(spans),
    }
}

/// The duration of a test in a run, where the run has one.
pub open spec fn timed_part(window: Seq<&StoredRun>, t: Seq<char>) -> spec_fn(int) -> Seq<nat> {
    |i: int|
        if has_key(window[i].run.results@, t) {
            match entry_of(window[i].run.results@, t).duration {
                Some(d) => seq![d@],
                None => Seq::empty(),
            }
        } else {
            Seq::empty()
        }
}

/// The durations of a test over the runs.
pub open spec fn spans_of(window: Seq<&StoredRun>, t: Seq<char>) -> Seq<nat> {
    gathered(timed_part(window, t), window.len())
}

/// Whether durations can be added up.
pub open spec fn spans_fit(window: Seq<&StoredRun>) -> bool {
    forall|t: Seq<char>| sum_of(#[trigger] spans_of(window, t)) <= MAX_NANOS
}

/// One more duration.
proof fn one_more_span(part: spec_fn(int) -> Seq<nat>, i: nat, n: nat, d: Option<Duration>)
    requires
        i < n,
        part(i as int) == match d {
            Some(d) => seq![d@],
            None => Seq::<nat>::empty(),
        },
    ensures
        gathered(part, i + 1).len() == gathered(part, i).len() + (if d is Some {
            1nat
        } else {
            0
        }),
        sum_of(gathered(part, i + 1)) == sum_of(gathered(part, i)) + (if d is Some {
            d->0@
        } else {
            0
        }),
        sum_of(gathered(part, i + 1)) <= sum_of(gathered(part, n)),
{
    sum_grows(part, i + 1, n);
    sum_joins(gathered(part, i), part(i as int));
    if d is Some {
        let one = seq![d->0@];
        assert(one.drop_last() =~= Seq::<nat>::empty());
        assert(sum_of(one) == sum_of(one.drop_last()) + one.last());
    }
}

/// The mean of the durations of a test over the runs.
fn mean_of(window: &Vec<&StoredRun>, t: &str) -> (r: Option<Mean>)
    requires
        sum_of(spans_of(window@, t@)) <= MAX_NANOS,
    ensures
        is_mean(r, spans_of(window@, t@)),
{
    let ghost part = timed_part(window@, t@);
    let mut total: u128 = 0;
    let mut count: usize = 0;
    for i in 0..window.len()
        invariant
            part == timed_part(window@, t@),
            sum_of(gathered(part, window@.len())) <= MAX_NANOS,
            total == sum_of(gathered(part, i as nat)),
            count == gathered(part, i as nat).len(),
            count <= i,
    {
        let d: Option<Duration> = match window[i].run.results.find(t) {
            Some(r) => r.duration,
            None => None,
        };
        proof {
            one_more_span(part, i as nat, window@.len(), d);
        }
        if let Some(d) = d {
            total = total + d.as_nanos();
            count += 1;
        }
    }
    if count == 0 {
        None
    } else {
        Some(Mean { total: Duration::from_nanos(total), count })
    }
}

/// The position of the last run with a result of a test; none where there is none.
pub open spec fn last_seen(window: Seq<&StoredRun>, n: nat, t: Seq<char>) -> Option<nat>
    decreases n,
{
    if n == 0 {
        None
    } else if has_key(window[n - 1].run.results@, t) {
        Some((n - 1) as nat)
    } else {
        last_seen(window, (n - 1) as nat, t)
    }
}

/// What is known of a test.
#[derive(Debug)]
pub struct TestStats {
    /// The name.
    pub test_id: String,
    /// How many runs have a result.
    pub runs: usize,
    /// How many of them have a failure.
    pub failures: usize,
    /// The latest result.
    pub last_status: Option<TestStatus>,
    /// The run with the latest result.
    pub last_run_id: Option<String>,
    /// How many runs there were since; all where there is no result.
    pub runs_since_seen: usize,
    /// How long the test takes on average.
    pub avg_duration: Option<Mean>,
    /// Whether the test command knows the test.
    pub discovered: bool,
}

/// Whether `s` is what is known of a test.
pub open spec fn is_stats(
    s: TestStats,
    window: Seq<&StoredRun>,
    t: Seq<char>,
    discovered: Seq<TestId>,
) -> bool {
    let h = history_of(window, t);
    let last = last_seen(window, window.len(), t);
    &&& s.test_id@ == t
    &&& s.runs == h.len()
    &&& s.failures == failures_in(h)
    &&& s.discovered == among(discovered, t)
    &&& is_mean(s.avg_duration, spans_of(window, t))
    &&& match last {
        Some(i) => {
            &&& s.last_status == Some(entry_of(window[i as int].run.results@, t).status)
            &&& s.last_run_id is Some && s.last_run_id->0@ == window[i as int].run.id@
            &&& s.runs_since_seen == window.len() - 1 - i
        },
        None => s.last_status is None && s.last_run_id is None && s.runs_since_seen
            == window.len(),
    }
}

/// Whether `names` lists, in order, the tests that the runs have results of and further ones.
pub open spec fn lists_all(
    names: Seq<Seq<char>>,
    window: Seq<&StoredRun>,
    more: Seq<TestId>,
) -> bool {
    &&& names_ascend(names)
    &&& forall|t: Seq<char>| #[trigger]
        names.contains(t) <==> seen_in(window, window.len() as int, t) || among(more, t)
}

/// The tests that the runs have results of and further ones.
fn all_tests(window: &Vec<&StoredRun>, more: &Vec<TestId>) -> (r: Vec<String>)
    ensures
        lists_all(texts(r@), window@, more@),
{
    let seen: Vec<String> = tests_of(window);
    let ghost all = texts(seen@);
    let mut names: TextMap<bool> = KeyedList::new();
    for i in 0..seen.len()
        invariant
            all == texts(seen@),
            forall|t: Seq<char>| #[trigger]
                has_key(names@, t) <==> exists|k: int| 0 <= k < i && #[trigger] all[k] == t,
    {
        let ghost before = names@;
        let e: Named<bool> = Named { name: seen[i].clone(), value: true };
        let ghost g = e;
        let _ = names.entries();
        names.put(e);
        proof {
            with_entry_laws(before, g);
            assert(g.key_text() == all[i as int]);
            assert forall|t: Seq<char>| #[trigger]
                has_key(names@, t) <==> exists|k: int| 0 <= k < i + 1 && #[trigger] all[k] == t by {
                if t == all[i as int] {
                } else if has_key(before, t) {
                    let k = choose|k: int| 0 <= k < i && #[trigger] all[k] == t;
                    assert(all[k] == t);
                    assert(has_key(names@, t));
                } else {
                    assert(!has_key(names@, t));
                }
            }
        }
    }
    proof {
        assert forall|t: Seq<char>| #[trigger]
            has_key(names@, t) <==> seen_in(window@, window@.len() as int, t) by {
            assert(all.contains(t) <==> seen_in(window@, window@.len() as int, t));
            if has_key(names@, t) {
                let k = choose|k: int| 0 <= k < all.len() && #[trigger] all[k] == t;
                assert(all.contains(t));
            }
            if all.contains(t) {
                let k = choose|k: int| 0 <= k < all.len() && all[k] == t;
                assert(all[k] == t);
            }
        }
    }
    let ghost ids = test_names(more@);
    for i in 0..more.len()
        invariant
            ids == test_names(more@),
            forall|t: Seq<char>| #[trigger]
                has_key(names@, t) <==> seen_in(window@, window@.len() as int, t) || (exists|
                    k: int,
                | 0 <= k < i && #[trigger] ids[k] == t),
    {
        let ghost before = names@;
        let e: Named<bool> = Named { name: more[i].as_str().to_owned(), value: true };
        let ghost g = e;
        let _ = names.entries();
        names.put(e);
        proof {
            with_entry_laws(before, g);
            assert(g.key_text() == ids[i as int]);
            assert forall|t: Seq<char>| #[trigger]
                has_key(names@, t) <==> seen_in(window@, window@.len() as int, t) || (exists|
                    k: int,
                | 0 <= k < i + 1 && #[trigger] ids[k] == t) by {
                if t == ids[i as int] {
                } else {
                    assert(has_key(names@, t) == has_key(before, t));
                    if exists|k: int| 0 <= k < i && #[trigger] ids[k] == t {
                        let k = choose|k: int| 0 <= k < i && #[trigger] ids[k] == t;
                        assert(ids[k] == t);
                    }
                }
            }
        }
    }
    let entries: &Vec<Named<bool>> = names.entries();
    let mut r: Vec<String> = Vec::new();
    for i in 0..entries.len()
        invariant
            entries@ == names@,
            r@.len() == i,
            forall|k: int| 0 <= k < i ==> #[trigger] texts(r@)[k] == names@[k].name@,
    {
        let ghost before = texts(r@);
        r.push(entries[i].name.clone());
        assert(texts(r@) =~= before.push(names@[i as int].name@));
    }
    proof {
        let list = texts(r@);
        assert forall|i: int, j: int| 0 <= i < j < list.len() implies crate::text::order::text_lt(
            #[trigger] list[i],
            #[trigger] list[j],
        ) by {
            assert(names@[i].key_text() == list[i] && names@[j].key_text() == list[j]);
        }
        assert forall|t: Seq<char>| #[trigger] list.contains(t) <==> has_key(names@, t) by {
            if list.contains(t) {
                let k = choose|k: int| 0 <= k < list.len() && list[k] == t;
                assert(names@[k].key_text() == t);
            }
            if has_key(names@, t) {
                let k = choose|k: int| 0 <= k < names@.len() && (#[trigger] names@[k]).key_text()
                    == t;
                assert(list[k] == t);
            }
        }
    }
    r
}

/// What is known of a test.
fn stats_of(window: &Vec<&StoredRun>, t: &str, discovered: &Vec<TestId>) -> (r: TestStats)
    requires
        sum_of(spans_of(window@, t@)) <= MAX_NANOS,
    ensures
        is_stats(r, window@, t@, discovered@),
{
    let h: Vec<bool> = history(window, t);
    let id: TestId = TestId::new(t);
    let counts: TestFlakiness = count_history(&id, &h);
    let n: usize = window.len();
    let mut i: usize = n;
    while i > 0 && !window[i - 1].run.results.contains_key(t)
        invariant
            i <= n == window@.len(),
            last_seen(window@, i as nat, t@) == last_seen(window@, n as nat, t@),
        decreases i,
    {
        i -= 1;
    }
    let mut last_status: Option<TestStatus> = None;
    let mut last_run_id: Option<String> = None;
    let mut since: usize = n;
    if i > 0 {
        if let Some(r) = window[i - 1].run.results.find(t) {
            last_status = Some(r.status);
            last_run_id = Some(window[i - 1].run.id.as_str().to_owned());
            since = n - i;
        }
    }
    TestStats {
        test_id: t.to_owned(),
        runs: counts.runs,
        failures: counts.failures,
        last_status,
        last_run_id,
        runs_since_seen: since,
        avg_duration: mean_of(window, t),
        discovered: crate::commands::ci_report::is_among(discovered, t),
    }
}

/// What is known of the tests.
#[derive(Debug)]
pub struct TestsResponse {
    /// The tests, in the order of their names.
    pub tests: Vec<TestStats>,
    /// The configured pattern for groups.
    pub group_regex: Option<String>,
    /// How many runs are recorded.
    pub total_runs_in_repo: usize,
    /// Whether the test command was asked for tests.
    pub discovery_run: bool,
}

/// What is known of the tests: those with results, and those that the test command lists where it
/// was asked.
pub fn collect_test_stats(
    store: &Store,
    discovered: Option<&Vec<TestId>>,
    group_regex: Option<String>,
) -> (r: TestsResponse)
    requires
        spans_fit(run_refs(store.runs@)),
    ensures
        r.group_regex == group_regex,
        r.total_runs_in_repo == store.runs@.len(),
        r.discovery_run == discovered is Some,
        exists|names: Seq<Seq<char>>| #[trigger]
            lists_all(names, run_refs(store.runs@), listed_tests(discovered)) && names.len()
                == r.tests@.len() && forall|i: int|
                0 <= i < names.len() ==> is_stats(
                    #[trigger] r.tests@[i],
                    run_refs(store.runs@),
                    names[i],
                    listed_tests(discovered),
                ),
{
    let window: Vec<&StoredRun> = store.all_runs();
    let none: Vec<TestId> = Vec::new();
    let more: &Vec<TestId> = match discovered {
        Some(v) => v,
        None => &none,
    };
    assert(more@ =~= listed_tests(discovered));
    let names: Vec<String> = all_tests(&window, more);
    let ghost all = texts(names@);
    let mut tests: Vec<TestStats> = Vec::new();
    for i in 0..names.len()
        invariant
            all == texts(names@),
            spans_fit(window@),
            tests@.len() == i,
            forall|k: int|
                0 <= k < i ==> is_stats(#[trigger] tests@[k], window@, all[k], more@),
    {
        assert(sum_of(spans_of(window@, names@[i as int]@)) <= MAX_NANOS);
        tests.push(stats_of(&window, names[i].as_str(), more));
    }
    assert(lists_all(all, window@, more@));
    TestsResponse {
        tests,
        group_regex,
        total_runs_in_repo: store.count(),
        discovery_run: discovered.is_some(),
    }
}

/// The tests that the test command lists; none where it was not asked.
pub open spec fn listed_tests(discovered: Option<&Vec<TestId>>) -> Seq<TestId> {
    match discovered {
        Some(v) => v@,
        None => Seq::empty(),
    }
}

/// The tests in groups.
#[derive(Debug)]
pub struct TreeResponse {
    /// The pattern for groups.
    pub regex_used: Option<String>,
    /// The groups, in the order of their names.
    pub groups: Vec<TestGroup>,
}

/// The pattern for groups: the one asked for, unless it is empty, else the configured one.
pub open spec fn tree_pattern(asked: Option<String>, configured: Option<String>) -> Option<
    Seq<char>,
> {
    match asked {
        Some(s) => if s@.len() > 0 {
            Some(s@)
        } else {
            optional_text(configured)
        },
        None => optional_text(configured),
    }
}

/// The tests in groups: by a pattern, or all in one group without a name.
pub fn build_tree(
    store: &Store,
    asked: &Option<String>,
    configured: &Option<String>,
    discovered: &Vec<TestId>,
) -> (r: core::result::Result<TreeResponse, String>)
    ensures
        exists|names: Seq<Seq<char>>| #[trigger]
            lists_all(names, run_refs(store.runs@), discovered@) && match tree_pattern(
                *asked,
                *configured,
            ) {
                None => r matches Ok(t) && t.regex_used is None && group_list(t.groups@) == seq![
                    (""@, names),
                ],
                Some(p) => match regex_error(p) {
                    Some(e) => r matches Err(s) && s@ == "invalid group regex: "@ + e,
                    None => r matches Ok(t) && optional_text(t.regex_used) == Some(p) && group_list(
                        t.groups@,
                    ) == groups_of(p, names),
                },
            },
{
    let window: Vec<&StoredRun> = store.all_runs();
    let names: Vec<String> = all_tests(&window, discovered);
    let ghost all = texts(names@);
    assert(lists_all(all, run_refs(store.runs@), discovered@));
    let mut regex: Option<String> = crate::repository::copy_text(configured);
    if let Some(s) = asked {
        if !s.as_str().is_empty() {
            regex = Some(s.clone());
        }
    }
    match regex {
        None => {
            let mut groups: Vec<TestGroup> = Vec::new();
            groups.push(TestGroup { key: String::new(), tests: names });
            proof {
                reveal_strlit("");
                assert(groups@[0].key@ =~= ""@);
                assert(group_list(groups@) =~= seq![(""@, all)]);
            }
            Ok(TreeResponse { regex_used: None, groups })
        },
        Some(p) => match group_tests(&names, p.as_str()) {
            Ok(groups) => Ok(TreeResponse { regex_used: Some(p), groups }),
            Err(e) => Err(cat2("invalid group regex: ", e.as_str())),
        },
    }
}

/// A run in the list of runs.
#[derive(Debug)]
pub struct RunListItem<'a> {
    /// The run.
    pub stored: &'a StoredRun,
    /// How many results it has.
    pub total: usize,
    /// How many of them are failures.
    pub failures: usize,
}

/// The runs, the latest first.
pub fn list_runs<'a>(store: &'a Store) -> (r: Vec<RunListItem<'a>>)
    ensures
        r@.len() == store.runs@.len(),
        forall|i: int|
            0 <= i < r@.len() ==> {
                let s = store.runs@[store.runs@.len() - 1 - i];
                &&& *(#[trigger] r@[i]).stored == s
                &&& r@[i].total == s.run.results@.len()
                &&& r@[i].failures == failure_count(s.run.results@)
            },
{
    let mut r: Vec<RunListItem<'a>> = Vec::new();
    let n: usize = store.runs.len();
    for i in 0..n
        invariant
            n == store.runs@.len(),
            r@.len() == i,
            forall|k: int|
                0 <= k < i ==> {
                    let s = store.runs@[n - 1 - k];
                    &&& *(#[trigger] r@[k]).stored == s
                    &&& r@[k].total == s.run.results@.len()
                    &&& r@[k].failures == failure_count(s.run.results@)
                },
    {
        let stored: &'a StoredRun = &store.runs[n - 1 - i];
        r.push(
            RunListItem {
                stored,
                total: stored.run.total_tests(),
                failures: stored.run.count_failures(),
            },
        );
    }
    r
}

/// How many results are successes or failures that were expected.
pub open spec fn success_count(s: Seq<TestResult>) -> nat {
    crate::commands::ci_report::count_of(s, TestStatus::Success, TestStatus::ExpectedFailure)
}

/// How many results have a status.
pub open spec fn status_count(s: Seq<TestResult>, status: TestStatus) -> nat {
    crate::commands::ci_report::count_of(s, status, status)
}

/// The durations of results.
pub open spec fn result_span_part(s: Seq<TestResult>) -> spec_fn(int) -> Seq<nat> {
    |i: int|
        match s[i].duration {
            Some(d) => seq![d@],
            None => Seq::empty(),
        }
}

/// The durations of results.
pub open spec fn result_spans(s: Seq<TestResult>) -> Seq<nat> {
    gathered(result_span_part(s), s.len())
}

/// The largest number; zero where there is none.
pub open spec fn largest(s: Seq<nat>) -> nat
    decreases s.len(),
{
    if s.len() == 0 {
        0
    } else if s.last() > largest(s.drop_last()) {
        s.last()
    } else {
        largest(s.drop_last())
    }
}

/// A run with its numbers. The results are those of the run, in the order of the tests' names.
#[derive(Debug)]
pub struct RunDetail<'a> {
    /// The run.
    pub stored: &'a StoredRun,
    /// How many results it has.
    pub total: usize,
    /// How many of them are failures, errors among them.
    pub failures: usize,
    /// How many are successes or expected failures.
    pub successes: usize,
    /// How many tests were skipped.
    pub skipped: usize,
    /// How many are errors.
    pub errors: usize,
    /// How long the tests took, on average and all together.
    pub mean_test: Option<Mean>,
    /// How long the slowest took.
    pub slowest_test: Option<Duration>,
}

/// A run with its numbers.
pub fn run_detail<'a>(store: &'a Store, id: &str) -> (r: Result<RunDetail<'a>>)
    requires
        has_run(store.runs@, id@) ==> sum_of(result_spans(run_of(store.runs@, id@).run.results@))
            <= MAX_NANOS,
    ensures
        !has_run(store.runs@, id@) ==> (r matches Err(e) && e@ == Failure::TestRunNotFound(id@)),
        has_run(store.runs@, id@) ==> (r matches Ok(d) && {
            let s = run_of(store.runs@, id@).run.results@;
            &&& *d.stored == run_of(store.runs@, id@)
            &&& d.total == s.len()
            &&& d.failures == failure_count(s)
            &&& d.successes == success_count(s)
            &&& d.skipped == status_count(s, TestStatus::Skip)
            &&& d.errors == status_count(s, TestStatus::Error)
            &&& is_mean(d.mean_test, result_spans(s))
            &&& d.slowest_test is Some == (result_spans(s).len() > 0)
            &&& d.slowest_test is Some ==> d.slowest_test->0@ == largest(result_spans(s))
        }),
{
    let stored: &'a StoredRun = match store.find(id) {
        Some(s) => s,
        None => {
            return Err(Error::TestRunNotFound(id.to_owned()));
        },
    };
    let v: &Vec<TestResult> = stored.run.results.entries();
    let ghost part = result_span_part(v@);
    let mut successes: usize = 0;
    let mut skipped: usize = 0;
    let mut errors: usize = 0;
    let mut total: u128 = 0;
    let mut count: usize = 0;
    let mut slowest: u128 = 0;
    for i in 0..v.len()
        invariant
            part == result_span_part(v@),
            sum_of(gathered(part, v@.len())) <= MAX_NANOS,
            successes <= i,
            skipped <= i,
            errors <= i,
            count <= i,
            slowest <= MAX_NANOS,
            successes == success_count(v@.take(i as int)),
            skipped == status_count(v@.take(i as int), TestStatus::Skip),
            errors == status_count(v@.take(i as int), TestStatus::Error),
            total == sum_of(gathered(part, i as nat)),
            count == gathered(part, i as nat).len(),
            slowest == largest(gathered(part, i as nat)),
    {
        assert(v@.take(i + 1).drop_last() =~= v@.take(i as int));
        proof {
            one_more_span(part, i as nat, v@.len(), v@[i as int].duration);
            let before = gathered(part, i as nat);
            let after = gathered(part, (i + 1) as nat);
            match v@[i as int].duration {
                Some(d) => {
                    assert(after =~= before.push(d@));
                    assert(after.drop_last() =~= before);
                },
                None => {
                    assert(after =~= before);
                },
            }
        }
        let s: TestStatus = v[i].status;
        if s == TestStatus::Success || s == TestStatus::ExpectedFailure {
            successes += 1;
        }
        if s == TestStatus::Skip {
            skipped += 1;
        }
        if s == TestStatus::Error {
            errors += 1;
        }
        if let Some(d) = v[i].duration {
            let n: u128 = d.as_nanos();
            total = total + n;
            count += 1;
            if n > slowest {
                slowest = n;
            }
        }
    }
    assert(v@.take(v@.len() as int) =~= v@);
    let mut mean_test: Option<Mean> = None;
    let mut slowest_test: Option<Duration> = None;
    if count > 0 {
        mean_test = Some(Mean { total: Duration::from_nanos(total), count });
        slowest_test = Some(Duration::from_nanos(slowest));
    }
    Ok(
        RunDetail {
            stored,
            total: stored.run.total_tests(),
            failures: stored.run.count_failures(),
            successes,
            skipped,
            errors,
            mean_test,
            slowest_test,
        },
    )
}

/// A result of a test with the run that it belongs to.
#[derive(Debug)]
pub struct TestHistoryEntry<'a> {
    /// The run.
    pub stored: &'a StoredRun,
    /// The result.
    pub result: &'a TestResult,
}

/// The runs with a result of a test, the latest first, from position `n` backwards.
pub open spec fn runs_with(runs: Seq<StoredRun>, t: Seq<char>) -> Seq<StoredRun>
    decreases runs.len(),
{
    if runs.len() == 0 {
        Seq::empty()
    } else if has_key(runs.last().run.results@, t) {
        seq![runs.last()] + runs_with(runs.drop_last(), t)
    } else {
        runs_with(runs.drop_last(), t)
    }
}

/// The results of a test, the latest first.
pub fn test_history<'a>(store: &'a Store, t: &str) -> (r: Vec<TestHistoryEntry<'a>>)
    ensures
        r@.len() == runs_with(store.runs@, t@).len(),
        forall|i: int|
            0 <= i < r@.len() ==> {
                let s = runs_with(store.runs@, t@)[i];
                &&& *(#[trigger] r@[i]).stored == s
                &&& has_key(s.run.results@, t@)
                &&& *r@[i].result == entry_of(s.run.results@, t@)
            },
{
    let mut r: Vec<TestHistoryEntry<'a>> = Vec::new();
    let n: usize = store.runs.len();
    let mut i: usize = n;
    let ghost all = runs_with(store.runs@, t@);
    assert(store.runs@.take(n as int) =~= store.runs@);
    while i > 0
        invariant
            i <= n == store.runs@.len(),
            all == runs_with(store.runs@, t@),
            r@.len() + runs_with(store.runs@.take(i as int), t@).len() == all.len(),
            all.skip(r@.len() as int) == runs_with(store.runs@.take(i as int), t@),
            forall|k: int|
                0 <= k < r@.len() ==> {
                    &&& *(#[trigger] r@[k]).stored == all[k]
                    &&& has_key(all[k].run.results@, t@)
                    &&& *r@[k].result == entry_of(all[k].run.results@, t@)
                },
        decreases i,
    {
        let ghost rest = runs_with(store.runs@.take(i as int), t@);
        let ghost done = r@.len() as int;
        assert(store.runs@.take(i as int).drop_last() =~= store.runs@.take(i - 1));
        i -= 1;
        let stored: &'a StoredRun = &store.runs[i];
        if let Some(result) = stored.run.results.find(t) {
            assert(rest[0] == all.skip(done)[0]);
            assert(all[done] == *stored);
            r.push(TestHistoryEntry { stored, result });
            assert(all.skip(done + 1) =~= rest.drop_first());
            assert(rest.drop_first() =~= runs_with(store.runs@.take(i as int), t@));
        }
    }
    r
}

/// The profiles of a configuration.
#[derive(Debug)]
pub struct ProfilesResponse {
    /// The profile that applies where none is selected.
    pub default_profile: Option<String>,
    /// The names of the profiles.
    pub profiles: Vec<String>,
}

/// The profiles of a configuration; none where there is no configuration.
pub fn list_profiles(config: Option<&ConfigFile>) -> (r: ProfilesResponse)
    ensures
        match config {
            Some(c) => optional_text(r.default_profile) == optional_text(c.default_profile) && texts(
                r.profiles@,
            ) == profile_keys(c.profiles@),
            None => r.default_profile is None && r.profiles@.len() == 0,
        },
{
    match config {
        Some(c) => ProfilesResponse {
            default_profile: crate::repository::copy_text(&c.default_profile),
            profiles: c.profile_names(),
        },
        None => ProfilesResponse { default_profile: None, profiles: Vec::new() },
    }
}

/// A part of a whole.
#[derive(Clone, Copy, Debug, PartialEq, Eq, Structural)]
pub struct Ratio {
    /// The part.
    pub part: u128,
    /// The whole.
    pub whole: u128,
}

/// A test in a short list.
#[derive(Debug)]
pub struct TestStatLite {
    /// The name.
    pub test_id: String,
    /// How many runs have a result.
    pub runs: usize,
    /// How many of them have a failure.
    pub failures: usize,
    /// How long the test takes on average.
    pub avg_duration: Option<Mean>,
    /// How often it changed between passing and failing, where that is what the list shows.
    pub transitions: Option<usize>,
}

/// Whether `s` is what is known of a test.
pub open spec fn is_lite(s: TestStatLite, window: Seq<&StoredRun>, t: Seq<char>) -> bool {
    &&& s.test_id@ == t
    &&& s.runs == history_of(window, t).len()
    &&& s.failures == failures_in(history_of(window, t))
    &&& is_mean(s.avg_duration, spans_of(window, t))
}

/// A test with how long it takes.
#[derive(Debug)]
pub struct SlowTest {
    /// The name.
    pub name: String,
    /// How long it takes.
    pub mean: Mean,
}

/// The number of durations of a mean, at least one.
pub open spec fn weight(m: Mean) -> nat {
    if m.count == 0 {
        1
    } else {
        m.count as nat
    }
}

/// Whether `a / b` is more than `c / d`, found without large products.
fn ratio_exceeds(a: u128, b: u128, c: u128, d: u128) -> (r: bool)
    requires
        0 < b <= u64::MAX,
        0 < d <= u64::MAX,
    ensures
        r == (a * d > c * b),
{
    let qa: u128 = a / b;
    let ra: u128 = a % b;
    let qc: u128 = c / d;
    let rc: u128 = c % d;
    proof {
        vstd::arithmetic::div_mod::lemma_fundamental_div_mod(a as int, b as int);
        vstd::arithmetic::div_mod::lemma_fundamental_div_mod(c as int, d as int);
        let (a, b, c, d) = (a as int, b as int, c as int, d as int);
        let (qa, ra, qc, rc) = (qa as int, ra as int, qc as int, rc as int);
        assert(a * d == qa * (b * d) + ra * d) by (nonlinear_arith)
            requires
                a == b * qa + ra,
        ;
        assert(c * b == qc * (b * d) + rc * b) by (nonlinear_arith)
            requires
                c == d * qc + rc,
        ;
        assert(0 <= ra * d < b * d) by (nonlinear_arith)
            requires
                0 <= ra < b,
                d > 0,
        ;
        assert(0 <= rc * b < b * d) by (nonlinear_arith)
            requires
                0 <= rc < d,
                b > 0,
        ;
        assert(b * d <= 0xffff_ffff_ffff_ffff * 0xffff_ffff_ffff_ffff) by (nonlinear_arith)
            requires
                0 < b <= 0xffff_ffff_ffff_ffff,
                0 < d <= 0xffff_ffff_ffff_ffff,
        ;
        if qa > qc {
            assert(qa * (b * d) >= qc * (b * d) + b * d) by (nonlinear_arith)
                requires
                    qa >= qc + 1,
                    b * d > 0,
            ;
        }
        if qa < qc {
            assert(qc * (b * d) >= qa * (b * d) + b * d) by (nonlinear_arith)
                requires
                    qc >= qa + 1,
                    b * d > 0,
            ;
        }
    }
    qa > qc || (qa == qc && ra * d > rc * b)
}

impl SortKey for SlowTest {
    /// The slowest first.
    open spec fn before(&self, other: &Self) -> bool {
        self.mean.total@ * weight(other.mean) > other.mean.total@ * weight(self.mean)
    }

    proof fn weak_order(a: &Self, b: &Self, c: &Self) {
        let (x, y, z) = (a.mean.total@ as int, b.mean.total@ as int, c.mean.total@ as int);
        let (l, m, n) = (weight(a.mean) as int, weight(b.mean) as int, weight(c.mean) as int);
        crate::flakiness::ratio_transitive(x, l, y, m, z, n);
        crate::flakiness::ratio_transitive(z, n, y, m, x, l);
    }

    fn is_before(&self, other: &Self) -> (r: bool) {
        let b: u128 = if self.mean.count == 0 {
            1
        } else {
            self.mean.count as u128
        };
        let d: u128 = if other.mean.count == 0 {
            1
        } else {
            other.mean.count as u128
        };
        ratio_exceeds(self.mean.total.as_nanos(), b, other.mean.total.as_nanos(), d)
    }
}

/// Whether `v` lists, in order, the tests with durations.
pub open spec fn lists_slow(
    v: Seq<SlowTest>,
    names: Seq<Seq<char>>,
    window: Seq<&StoredRun>,
) -> bool
    decreases names.len(),
{
    if names.len() == 0 {
        v.len() == 0
    } else if spans_of(window, names.last()).len() > 0 {
        &&& v.len() > 0
        &&& v.last().name@ == names.last()
        &&& is_mean(Some(v.last().mean), spans_of(window, names.last()))
        &&& lists_slow(v.drop_last(), names.drop_last(), window)
    } else {
        lists_slow(v, names.drop_last(), window)
    }
}

/// Whether `list` holds the ten tests that take longest, the slowest first.
pub open spec fn is_slowest(
    list: Seq<TestStatLite>,
    v: Seq<SlowTest>,
    window: Seq<&StoredRun>,
) -> bool {
    &&& list.len() == (if v.len() > 10 {
        10
    } else {
        v.len()
    })
    &&& forall|i: int|
        0 <= i < list.len() ==> is_lite(
            #[trigger] list[i],
            window,
            v[order_of(v)[i]].name@,
        ) && list[i].transitions is None
}

/// Whether `list` holds the ten tests that change most often.
pub open spec fn is_flakiest(
    list: Seq<TestStatLite>,
    ranking: Seq<Record>,
    window: Seq<&StoredRun>,
) -> bool {
    &&& list.len() == (if ranking.len() > 10 {
        10
    } else {
        ranking.len()
    })
    &&& forall|i: int|
        0 <= i < list.len() ==> is_lite(#[trigger] list[i], window, ranking[i].name)
            && list[i].transitions is Some && list[i].transitions->0 == ranking[i].transitions
}

/// How many results runs have.
pub open spec fn results_in(runs: Seq<StoredRun>) -> nat
    decreases runs.len(),
{
    if runs.len() == 0 {
        0
    } else {
        results_in(runs.drop_last()) + runs.last().run.results@.len()
    }
}

/// How many failures runs have.
pub open spec fn failures_of(runs: Seq<StoredRun>) -> nat
    decreases runs.len(),
{
    if runs.len() == 0 {
        0
    } else {
        failures_of(runs.drop_last()) + failure_count(runs.last().run.results@)
    }
}

/// The last ten runs.
pub open spec fn last_ten(runs: Seq<StoredRun>) -> Seq<StoredRun> {
    if runs.len() > 10 {
        runs.skip(runs.len() - 10)
    } else {
        runs
    }
}

/// What is known of all runs.
#[derive(Debug)]
pub struct RepoOverview {
    /// How many runs there are.
    pub total_runs: usize,
    /// How many tests have results.
    pub total_tests_known: usize,
    /// The latest run.
    pub last_run_id: Option<String>,
    /// How many failures it has.
    pub last_run_failures: Option<usize>,
    /// How many results it has.
    pub last_run_total: Option<usize>,
    /// How many seconds runs take on average.
    pub avg_run_duration: Option<Binary>,
    /// The failures among the results of the last ten runs, where there are results.
    pub recent_failure_rate: Option<Ratio>,
    /// The ten tests that take longest.
    pub slowest: Vec<TestStatLite>,
    /// The ten tests that change most often between passing and failing.
    pub flakiest: Vec<TestStatLite>,
}

/// The recorded durations of runs.
pub open spec fn run_spans(window: Seq<&StoredRun>) -> Seq<nat> {
    gathered(span_part(window), window.len())
}

/// What is known of a test.
fn lite_of(window: &Vec<&StoredRun>, t: &str, transitions: Option<usize>) -> (r: TestStatLite)
    requires
        sum_of(spans_of(window@, t@)) <= MAX_NANOS,
    ensures
        is_lite(r, window@, t@),
        r.transitions == transitions,
{
    let h: Vec<bool> = history(window, t);
    let id: TestId = TestId::new(t);
    let counts: TestFlakiness = count_history(&id, &h);
    TestStatLite {
        test_id: t.to_owned(),
        runs: counts.runs,
        failures: counts.failures,
        avg_duration: mean_of(window, t),
        transitions,
    }
}

/// The tests with durations.
fn timed_tests(window: &Vec<&StoredRun>, names: &Vec<String>) -> (r: Vec<SlowTest>)
    requires
        spans_fit(window@),
    ensures
        lists_slow(r@, texts(names@), window@),
{
    let ghost all = texts(names@);
    let mut r: Vec<SlowTest> = Vec::new();
    for i in 0..names.len()
        invariant
            all == texts(names@),
            spans_fit(window@),
            lists_slow(r@, all.take(i as int), window@),
    {
        let ghost before = r@;
        assert(all.take(i + 1).drop_last() =~= all.take(i as int));
        assert(sum_of(spans_of(window@, names@[i as int]@)) <= MAX_NANOS);
        if let Some(mean) = mean_of(window, names[i].as_str()) {
            r.push(SlowTest { name: names[i].clone(), mean });
            assert(r@.drop_last() =~= before);
        }
    }
    assert(all.take(all.len() as int) =~= all);
    r
}

/// The failures among the results of the last ten runs.
fn recent_rate(store: &Store) -> (r: Option<Ratio>)
    ensures
        ({
            let recent = last_ten(store.runs@);
            match r {
                None => results_in(recent) == 0,
                Some(x) => x.whole > 0 && x.whole == results_in(recent) && x.part == failures_of(
                    recent,
                ),
            }
        }),
{
    let n: usize = store.runs.len();
    let from: usize = if n > 10 {
        n - 10
    } else {
        0
    };
    let ghost recent = last_ten(store.runs@);
    let mut whole: u128 = 0;
    let mut part: u128 = 0;
    for i in from..n
        invariant
            n == store.runs@.len(),
            from <= n,
            n - from <= 10,
            recent =~= store.runs@.skip(from as int),
            whole == results_in(recent.take(i - from)),
            part == failures_of(recent.take(i - from)),
            whole <= (i - from) * 0xffff_ffff_ffff_ffff,
            part <= (i - from) * 0xffff_ffff_ffff_ffff,
    {
        assert(recent.take(i + 1 - from).drop_last() =~= recent.take(i - from));
        whole = whole + store.runs[i].run.total_tests() as u128;
        part = part + store.runs[i].run.count_failures() as u128;
    }
    assert(recent.take(n - from) =~= recent);
    if whole == 0 {
        None
    } else {
        Some(Ratio { part, whole })
    }
}

/// What is known of all runs.
pub fn build_repo_overview(store: &Store) -> (r: RepoOverview)
    requires
        spans_fit(run_refs(store.runs@)),
    ensures
        r.total_runs == store.runs@.len(),
        store.runs@.len() == 0 ==> r.last_run_id is None && r.last_run_failures is None
            && r.last_run_total is None,
        store.runs@.len() > 0 ==> {
            let last = store.runs@.last().run;
            &&& r.last_run_id is Some && r.last_run_id->0@ == last.id@
            &&& r.last_run_failures is Some && r.last_run_failures->0 == failure_count(
                last.results@,
            )
            &&& r.last_run_total is Some && r.last_run_total->0 == last.results@.len()
        },
        match r.avg_run_duration {
            Some(m) => run_spans(run_refs(store.runs@)).len() > 0 && m@ == mean_seconds(
                run_spans(run_refs(store.runs@)),
            ),
            None => run_spans(run_refs(store.runs@)).len() == 0,
        },
        match r.recent_failure_rate {
            None => results_in(last_ten(store.runs@)) == 0,
            Some(x) => x.whole > 0 && x.whole == results_in(last_ten(store.runs@)) && x.part
                == failures_of(last_ten(store.runs@)),
        },
        exists|names: Seq<Seq<char>>, v: Seq<SlowTest>|
            {
                &&& #[trigger] lists_tests(names, run_refs(store.runs@))
                &&& r.total_tests_known == names.len()
                &&& #[trigger] lists_slow(v, names, run_refs(store.runs@))
                &&& is_slowest(r.slowest@, v, run_refs(store.runs@))
            },
        exists|ranking: Seq<Record>| #[trigger]
            is_ranking(
                ranking,
                run_refs(store.runs@),
                ranked_tests(run_refs(store.runs@), 2, false),
            ) && is_flakiest(r.flakiest@, ranking, run_refs(store.runs@)),
{
    let window: Vec<&StoredRun> = store.all_runs();
    let names: Vec<String> = tests_of(&window);
    let v: Vec<SlowTest> = timed_tests(&window, &names);
    let order: Vec<usize> = sorted_order(&v);
    let ghost o = positions(order@);
    let shown: usize = if v.len() > 10 {
        10
    } else {
        v.len()
    };
    let mut slowest: Vec<TestStatLite> = Vec::new();
    for i in 0..shown
        invariant
            shown <= v@.len(),
            o == positions(order@),
            o == order_of(v@),
            is_order(v@, o),
            spans_fit(window@),
            slowest@.len() == i,
            forall|k: int|
                0 <= k < i ==> is_lite(#[trigger] slowest@[k], window@, v@[o[k]].name@)
                    && slowest@[k].transitions is None,
    {
        assert(0 <= o[i as int] < v@.len());
        let t: &str = v[order[i]].name.as_str();
        assert(sum_of(spans_of(window@, t@)) <= MAX_NANOS);
        slowest.push(lite_of(&window, t, None));
    }
    let ranking: Vec<TestFlakiness> = store.get_flakiness(2);
    let ghost list = records(ranking@);
    let top: usize = if ranking.len() > 10 {
        10
    } else {
        ranking.len()
    };
    let mut flakiest: Vec<TestStatLite> = Vec::new();
    for i in 0..top
        invariant
            top <= ranking@.len(),
            list == records(ranking@),
            spans_fit(window@),
            flakiest@.len() == i,
            forall|k: int|
                0 <= k < i ==> is_lite(#[trigger] flakiest@[k], window@, list[k].name)
                    && flakiest@[k].transitions is Some && flakiest@[k].transitions->0
                    == list[k].transitions,
    {
        assert(list[i as int] == ranking@[i as int]@);
        let t: &str = ranking[i].test_id.as_str();
        assert(sum_of(spans_of(window@, t@)) <= MAX_NANOS);
        flakiest.push(lite_of(&window, t, Some(ranking[i].transitions)));
    }
    let n: usize = store.runs.len();
    let mut last_run_id: Option<String> = None;
    let mut last_run_failures: Option<usize> = None;
    let mut last_run_total: Option<usize> = None;
    if n > 0 {
        let last: &TestRun = &store.runs[n - 1].run;
        last_run_id = Some(last.id.as_str().to_owned());
        last_run_failures = Some(last.count_failures());
        last_run_total = Some(last.total_tests());
    }
    assert(lists_tests(texts(names@), run_refs(store.runs@)));
    assert(lists_slow(v@, texts(names@), run_refs(store.runs@)));
    RepoOverview {
        total_runs: n,
        total_tests_known: names.len(),
        last_run_id,
        last_run_failures,
        last_run_total,
        avg_run_duration: Binary::mean(&recorded_spans(&window)),
        recent_failure_rate: recent_rate(store),
        slowest,
        flakiest,
    }
}

/// What a run is started with.
#[derive(Debug)]
pub struct StartRunRequest {
    /// The tests to run.
    pub test_ids: Vec<String>,
    /// Patterns of which a test must match one.
    pub filters: Vec<String>,
    /// Whether to run only the tests that fail.
    pub failing: bool,
    /// How many workers to use.
    pub parallel: Option<usize>,
    /// The profile to use.
    pub profile: Option<String>,
    /// The order of the tests.
    pub order: Option<String>,
    /// Whether each test gets a process of its own.
    pub isolated: bool,
    /// Whether tests that are not run keep failing.
    pub partial: bool,
    /// Whether to run again until a test fails.
    pub until_failure: bool,
    /// How often to run at most.
    pub max_iterations: Option<usize>,
    /// Starts of names of which a test must have one.
    pub starting_with: Vec<String>,
    /// Tags that tests must have or must not have.
    pub tags: Vec<String>,
    /// The timeout of each test.
    pub test_timeout: Option<String>,
    /// The timeout of the run.
    pub max_duration: Option<String>,
    /// How long a test may stay silent.
    pub no_output_timeout: Option<String>,
    /// Further arguments for the test command.
    pub test_args: Vec<String>,
}

/// The last run with a result of a test has one, and no later run has.
pub proof fn last_seen_is_the_latest(window: Seq<&StoredRun>, n: nat, t: Seq<char>)
    requires
        n <= window.len(),
    ensures
        match last_seen(window, n, t) {
            Some(i) => i < n && has_key(window[i as int].run.results@, t) && forall|k: int|
                i < k < n ==> !has_key((#[trigger] window[k]).run.results@, t),
            None => forall|k: int|
                0 <= k < n ==> !has_key((#[trigger] window[k]).run.results@, t),
        },
    decreases n,
{
    if n > 0 {
        last_seen_is_the_latest(window, (n - 1) as nat, t);
    }
}

/// Whether one run was recorded after another.
pub open spec fn is_later(runs: Seq<StoredRun>, x: StoredRun, y: StoredRun) -> bool {
    exists|a: int, b: int|
        #![trigger runs[a], runs[b]]
        0 <= b < a < runs.len() && runs[a] == x && runs[b] == y
}

/// The history of a test has each run with a result of it, and no other, the latest first.
pub proof fn history_goes_back_from_the_latest(runs: Seq<StoredRun>, t: Seq<char>)
    ensures
        forall|x: StoredRun| #[trigger]
            runs_with(runs, t).contains(x) <==> runs.contains(x) && has_key(x.run.results@, t),
        forall|i: int, j: int|
            0 <= i < j < runs_with(runs, t).len() ==> is_later(
                runs,
                #[trigger] runs_with(runs, t)[i],
                #[trigger] runs_with(runs, t)[j],
            ),
    decreases runs.len(),
{
    let all = runs_with(runs, t);
    if runs.len() > 0 {
        let init = runs.drop_last();
        let before = runs_with(init, t);
        history_goes_back_from_the_latest(init, t);
        assert(runs[runs.len() - 1] == runs.last());
        let first: int = if has_key(runs.last().run.results@, t) {
            1
        } else {
            0
        };
        assert forall|x: StoredRun| #[trigger] all.contains(x) <==> runs.contains(x) && has_key(
            x.run.results@,
            t,
        ) by {
            if all.contains(x) {
                let k = choose|k: int| 0 <= k < all.len() && all[k] == x;
                if k >= first {
                    assert(before[k - first] == x);
                    assert(before.contains(x));
                    let q = choose|q: int| 0 <= q < init.len() && init[q] == x;
                    assert(runs[q] == x);
                }
            }
            if runs.contains(x) && has_key(x.run.results@, t) {
                let q = choose|q: int| 0 <= q < runs.len() && runs[q] == x;
                if q < init.len() {
                    assert(init[q] == x);
                    assert(before.contains(x));
                    let k = choose|k: int| 0 <= k < before.len() && before[k] == x;
                    assert(all[k + first] == x);
                } else {
                    assert(all[0] == x);
                }
            }
        }
        assert forall|i: int, j: int| 0 <= i < j < all.len() implies is_later(
            runs,
            #[trigger] all[i],
            #[trigger] all[j],
        ) by {
            assert(all[j] == before[j - first]);
            if i >= first {
                assert(all[i] == before[i - first]);
                assert(is_later(init, before[i - first], before[j - first]));
                let (a, b) = choose|a: int, b: int|
                    #![trigger init[a], init[b]]
                    0 <= b < a < init.len() && init[a] == before[i - first] && init[b] == before[j
                        - first];
                assert(runs[a] == all[i] && runs[b] == all[j]);
            } else {
                assert(before.contains(before[j - first]));
                let b = choose|b: int| 0 <= b < init.len() && init[b] == before[j - first];
                assert(runs[runs.len() - 1] == all[i] && runs[b] == all[j]);
            }
        }
    }
}

/// The largest number is one of the numbers, and none is larger.
pub proof fn largest_is_largest(s: Seq<nat>)
    ensures
        forall|i: int| 0 <= i < s.len() ==> #[trigger] s[i] <= largest(s),
        s.len() > 0 ==> s.contains(largest(s)),
    decreases s.len(),
{
    if s.len() > 0 {
        let init = s.drop_last();
        largest_is_largest(init);
        assert forall|i: int| 0 <= i < s.len() implies #[trigger] s[i] <= largest(s) by {
            if i < init.len() {
                assert(init[i] <= largest(init));
            }
        }
        if s.last() > largest(init) {
            assert(s[s.len() - 1] == largest(s));
        } else if init.len() > 0 {
            let k = choose|k: int| 0 <= k < init.len() && init[k] == largest(init);
            assert(s[k] == largest(s));
        } else {
            assert(s[0] == largest(s));
        }
    }
}

/// The slowest tests come first: of two tests that are listed, the one that is listed first takes
/// no less time in the mean. All tests with durations are considered.
pub proof fn slowest_tests_come_first(
    v: Seq<SlowTest>,
    names: Seq<Seq<char>>,
    window: Seq<&StoredRun>,
    i: int,
    j: int,
)
    requires
        lists_slow(v, names, window),
        0 <= i < j < v.len(),
    ensures
        ({
            let a = v[order_of(v)[i]];
            let b = v[order_of(v)[j]];
            sum_of(spans_of(window, a.name@)) * spans_of(window, b.name@).len() >= sum_of(
                spans_of(window, b.name@),
            ) * spans_of(window, a.name@).len()
        }),
{
    crate::sort::order_exists(v);
    let o = order_of(v);
    assert(crate::sort::ranks_before(v, o[i], o[j]));
    SlowTest::weak_order(&v[o[i]], &v[o[j]], &v[o[i]]);
    slow_has_mean(v, names, window, o[i]);
    slow_has_mean(v, names, window, o[j]);
    assert(!v[o[j]].before(&v[o[i]]));
}

proof fn slow_has_mean(
    v: Seq<SlowTest>,
    names: Seq<Seq<char>>,
    window: Seq<&StoredRun>,
    k: int,
)
    requires
        lists_slow(v, names, window),
        0 <= k < v.len(),
    ensures
        is_mean(Some(v[k].mean), spans_of(window, v[k].name@)),
    decreases names.len(),
{
    if names.len() > 0 {
        if spans_of(window, names.last()).len() > 0 {
            if k < v.len() - 1 {
                slow_has_mean(v.drop_last(), names.drop_last(), window, k);
            }
        } else {
            slow_has_mean(v, names.drop_last(), window, k);
        }
    }
}

/// The last ten runs are those with fewer than ten runs behind them.
pub proof fn last_ten_are_the_latest(runs: Seq<StoredRun>)
    ensures
        last_ten(runs).len() == (if runs.len() < 10 {
            runs.len()
        } else {
            10
        }),
        forall|i: int|
            0 <= i < runs.len() && runs.len() - i <= 10 ==> last_ten(runs).contains(
                #[trigger] runs[i],
            ),
{
    assert forall|i: int| 0 <= i < runs.len() && runs.len() - i <= 10 implies last_ten(
        runs,
    ).contains(#[trigger] runs[i]) by {
        let from = runs.len() - last_ten(runs).len();
        assert(last_ten(runs)[i - from] == runs[i]);
    }
}

/// An argument where something is asked for.
pub open spec fn flag(on: bool, name: Seq<char>) -> Seq<Seq<char>> {
    if on {
        seq![name]
    } else {
        Seq::empty()
    }
}

/// An argument with a value where there is a value.
pub open spec fn option(name: Seq<char>, value: Option<Seq<char>>) -> Seq<Seq<char>> {
    match value {
        Some(v) => seq![name, v],
        None => Seq::empty(),
    }
}

/// A number in decimal, where there is one.
pub open spec fn number(n: Option<usize>) -> Option<Seq<char>> {
    match n {
        Some(k) => Some(decimal(k as nat)),
        None => None,
    }
}

/// An argument before each value.
pub open spec fn each_part(name: Seq<char>, list: Seq<Seq<char>>) -> spec_fn(int) -> Seq<Seq<char>> {
    |i: int| seq![name, list[i]]
}

/// An argument before each value.
pub open spec fn each(name: Seq<char>, list: Seq<Seq<char>>) -> Seq<Seq<char>> {
    gathered(each_part(name, list), list.len())
}

/// The arguments that start a run in a process of its own. The tests to run, where they are named,
/// stand in the file `list`.
pub open spec fn run_arguments(
    base: Seq<char>,
    q: StartRunRequest,
    list: Seq<char>,
) -> Seq<Seq<char>> {
    seq!["-C"@, base] + option("--profile"@, optional_text(q.profile)) + seq!["run"@, "--subunit"@]
        + flag(q.failing, "--failing"@) + flag(q.isolated, "--isolated"@) + flag(
        q.partial,
        "--partial"@,
    ) + flag(q.until_failure, "--until-failure"@) + (if q.until_failure {
        option("--max-iterations"@, number(q.max_iterations))
    } else {
        Seq::empty()
    }) + option("-j"@, number(q.parallel)) + option("--order"@, optional_text(q.order)) + option(
        "--test-timeout"@,
        optional_text(q.test_timeout),
    ) + option("--max-duration"@, optional_text(q.max_duration)) + option(
        "--no-output-timeout"@,
        optional_text(q.no_output_timeout),
    ) + each("-s"@, texts(q.starting_with@)) + each("--tag"@, texts(q.tags@)) + (if q.test_ids@.len()
        > 0 {
        seq!["--load-list"@, list]
    } else {
        Seq::empty()
    }) + texts(q.filters@) + (if q.test_args@.len() > 0 {
        seq!["--"@] + texts(q.test_args@)
    } else {
        Seq::empty()
    })
}

/// Adds an argument where something is asked for.
fn push_flag(v: &mut Vec<String>, on: bool, name: &str)
    ensures
        texts(final(v)@) == texts(old(v)@) + flag(on, name@),
{
    if on {
        v.push(name.to_owned());
    }
    assert(texts(v@) =~= texts(old(v)@) + flag(on, name@));
}

/// Adds an argument with a value where there is a value.
fn push_option(v: &mut Vec<String>, name: &str, value: &Option<String>)
    ensures
        texts(final(v)@) == texts(old(v)@) + option(name@, optional_text(*value)),
{
    if let Some(s) = value {
        v.push(name.to_owned());
        v.push(s.clone());
    }
    assert(texts(v@) =~= texts(old(v)@) + option(name@, optional_text(*value)));
}

/// Adds an argument with a number where there is a number.
fn push_number(v: &mut Vec<String>, name: &str, value: Option<usize>)
    ensures
        texts(final(v)@) == texts(old(v)@) + option(name@, number(value)),
{
    if let Some(n) = value {
        v.push(name.to_owned());
        v.push(count_text(n));
    }
    assert(texts(v@) =~= texts(old(v)@) + option(name@, number(value)));
}

/// Adds an argument before each value.
fn push_each(v: &mut Vec<String>, name: &str, list: &Vec<String>)
    ensures
        texts(final(v)@) == texts(old(v)@) + each(name@, texts(list@)),
{
    let ghost all = texts(list@);
    for i in 0..list.len()
        invariant
            all == texts(list@),
            texts(v@) =~= texts(old(v)@) + gathered(each_part(name@, all), i as nat),
    {
        v.push(name.to_owned());
        v.push(list[i].clone());
    }
}

impl StartRunRequest {
    /// The arguments that start a run in a process of its own. The tests to run, where they are
    /// named, stand in the file `list`.
    #[verifier::spinoff_prover]
    #[verifier::rlimit(80)]
    pub fn arguments(&self, base: &str, list: &str) -> (r: Vec<String>)
        ensures
            texts(r@) == run_arguments(base@, *self, list@),
    {
        let mut v: Vec<String> = Vec::new();
        v.push("-C".to_owned());
        v.push(base.to_owned());
        assert(texts(v@) =~= seq!["-C"@, base@]);
        push_option(&mut v, "--profile", &self.profile);
        let ghost head = texts(v@);
        v.push("run".to_owned());
        v.push("--subunit".to_owned());
        assert(texts(v@) =~= head + seq!["run"@, "--subunit"@]);
        push_flag(&mut v, self.failing, "--failing");
        push_flag(&mut v, self.isolated, "--isolated");
        push_flag(&mut v, self.partial, "--partial");
        push_flag(&mut v, self.until_failure, "--until-failure");
        let ghost head = texts(v@);
        if self.until_failure {
            push_number(&mut v, "--max-iterations", self.max_iterations);
        }
        assert(texts(v@) =~= head + (if self.until_failure {
            option("--max-iterations"@, number(self.max_iterations))
        } else {
            Seq::empty()
        }));
        push_number(&mut v, "-j", self.parallel);
        push_option(&mut v, "--order", &self.order);
        push_option(&mut v, "--test-timeout", &self.test_timeout);
        push_option(&mut v, "--max-duration", &self.max_duration);
        push_option(&mut v, "--no-output-timeout", &self.no_output_timeout);
        push_each(&mut v, "-s", &self.starting_with);
        push_each(&mut v, "--tag", &self.tags);
        let ghost head = texts(v@);
        if self.test_ids.len() > 0 {
            v.push("--load-list".to_owned());
            v.push(list.to_owned());
        }
        assert(texts(v@) =~= head + (if self.test_ids@.len() > 0 {
            seq!["--load-list"@, list@]
        } else {
            Seq::empty()
        }));
        append_texts(&mut v, clone_texts(&self.filters));
        let ghost head = texts(v@);
        if self.test_args.len() > 0 {
            v.push("--".to_owned());
            append_texts(&mut v, clone_texts(&self.test_args));
        }
        assert(texts(v@) =~= head + (if self.test_args@.len() > 0 {
            seq!["--"@] + texts(self.test_args@)
        } else {
            Seq::empty()
        }));
        v
    }

    /// The text of the file with the tests to run, where they are named.
    pub fn list_text(&self) -> (r: Option<String>)
        ensures
            r is Some <==> self.test_ids@.len() > 0,
            r matches Some(s) ==> s@ == terminated(texts(self.test_ids@), "\n"@),
    {
        if self.test_ids.len() == 0 {
            None
        } else {
            Some(join_terminated(&self.test_ids, "\n"))
        }
    }
}

/// A command with its arguments, to be shown.
pub fn command_line(exe: &str, arguments: &Vec<String>) -> (s: String)
    ensures
        s@ == exe@ + " "@ + joined(texts(arguments@), " "@),
{
    cat3(exe, " ", join(arguments, " ").as_str())
}

/// How a test is getting on.
#[derive(Clone, Copy, Debug, PartialEq, Eq, Structural)]
pub enum ProgressStatus {
    /// It was started.
    InProgress,
    /// It passed.
    Success,
    /// It failed.
    Failed,
    /// It was skipped.
    Skipped,
    /// It failed as expected.
    ExpectedFailure,
    /// It passed although it was expected to fail.
    UnexpectedSuccess,
}

/// The name of how a test is getting on.
pub open spec fn progress_text(s: ProgressStatus) -> Seq<char> {
    match s {
        ProgressStatus::InProgress => "in_progress"@,
        ProgressStatus::Success => "success"@,
        ProgressStatus::Failed => "failure"@,
        ProgressStatus::Skipped => "skip"@,
        ProgressStatus::ExpectedFailure => "xfail"@,
        ProgressStatus::UnexpectedSuccess => "uxsuccess"@,
    }
}

/// The name of how a test is getting on.
pub fn progress_status_label(s: ProgressStatus) -> (r: &'static str)
    ensures
        r@ == progress_text(s),
{
    match s {
        ProgressStatus::InProgress => "in_progress",
        ProgressStatus::Success => "success",
        ProgressStatus::Failed => "failure",
        ProgressStatus::Skipped => "skip",
        ProgressStatus::ExpectedFailure => "xfail",
        ProgressStatus::UnexpectedSuccess => "uxsuccess",
    }
}

/// What happens during a run.
#[derive(Debug)]
pub enum RunEvent {
    /// The process was started.
    Spawned {
        /// The command.
        command: String,
    },
    /// A test was started.
    Started {
        /// The test.
        test_id: String,
    },
    /// A test ended.
    Completed {
        /// The test.
        test_id: String,
        /// The name of its result.
        status: String,
        /// How long it took, where that is known.
        duration: Option<Duration>,
    },
    /// The process said something.
    Log {
        /// The line.
        line: String,
    },
    /// The process ended.
    Finished {
        /// Its exit code.
        exit_code: i32,
    },
    /// Something went wrong.
    Error {
        /// What went wrong.
        message: String,
    },
}

/// What happens when a test gets on.
pub fn progress_event(test_id: &str, status: ProgressStatus) -> (r: RunEvent)
    ensures
        if status == ProgressStatus::InProgress {
            r matches RunEvent::Started { test_id: t } && t@ == test_id@
        } else {
            r matches RunEvent::Completed { test_id: t, status: s, duration } && t@ == test_id@
                && s@ == progress_text(status) && duration is None
        },
{
    if status == ProgressStatus::InProgress {
        RunEvent::Started { test_id: test_id.to_owned() }
    } else {
        RunEvent::Completed {
            test_id: test_id.to_owned(),
            status: progress_status_label(status).to_owned(),
            duration: None,
        }
    }
}

/// What happens when the process of a run ends: with its exit code, where it has one, or without
/// having been run.
pub fn closing_event(outcome: Result<Option<i32>>) -> (r: RunEvent)
    ensures
        match outcome {
            Ok(code) => r matches RunEvent::Finished { exit_code } && exit_code == (if code is Some {
                code->0
            } else {
                -1i32
            }),
            Err(e) => r matches RunEvent::Error { message } && message@
                == crate::error::failure_text(e@),
        },
{
    match outcome {
        Ok(code) => RunEvent::Finished {
            exit_code: match code {
                Some(c) => c,
                None => -1,
            },
        },
        Err(e) => RunEvent::Error { message: e.message() },
    }
}

} // verus!
