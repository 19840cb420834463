//! What several commands need.

use vstd::prelude::*;
use vstd::string::*;

use crate::binary::{binary_quotient, binary_seconds, fraction_text, seconds_are_positive, Binary};
use crate::collection::{entry_of, has_key, keys_ascend, with_entry_laws, Named, TextMap};
use crate::commands::bisect::ProcessOutput;
use crate::config::file::{join_path, path_in};
use crate::config::layer::optional_text;
use crate::config::timeout::{SLOW_TEST_WARNING_MIN_DURATION, SLOW_TEST_WARNING_MULTIPLIER};
use crate::error::{Error, Result};
use crate::gather::{gathered, reversed};
use crate::repository::{failure_count, is_failure, test_names, RunId, RunMetadata, TestResult, TestRun};
use crate::sort::{is_order, order_of, positions, sorted_order, SortKey};
use crate::store::{failing_names, has_run, run_index, run_index_bounds, times_map, updated_failing, with_times, Store};
use crate::text::compose::{cat2, cat3, cat5, texts};
use crate::text::number::{count_text, decimal};
use crate::text::scan::{trim, trimmed};
use crate::time::{seconds_text, seconds_with_tenths, Duration, Timestamp};
use crate::ui::{outputs, Transcript};

pub use crate::config::file::has_config_file;
pub use crate::store::resolve_run_id;

verus! {

broadcast use crate::text::compose::texts_push;

/// Decides what to do for a repository that may not be there: gives whether to create it. Where it
/// could not be opened, it is created if that is asked for or if there is a configuration; else
/// what went wrong is passed on.
pub fn open_or_init_repository(
    base_path: Option<&str>,
    force_init: bool,
    opened: Result<()>,
    configured: bool,
    ui: &mut Transcript,
) -> (r: Result<bool>)
    ensures
        match opened {
            Ok(_) => r == Ok::<bool, Error>(false) && final(ui)@ == old(ui)@,
            Err(e) => if force_init || configured {
                r == Ok::<bool, Error>(true) && final(ui)@ == old(ui)@ + outputs(
                    seq![
                        "Creating repository in "@ + path_in(
                            match base_path {
                                Some(p) => p@,
                                None => "."@,
                            },
                            ".inquest"@,
                        ),
                    ],
                )
            } else {
                r == Err::<bool, Error>(e) && final(ui)@ == old(ui)@
            },
        },
{
    match opened {
        Ok(_) => Ok(false),
        Err(e) => {
            if force_init || configured {
                let base: &str = match base_path {
                    Some(p) => p,
                    None => ".",
                };
                let line: String = cat2(
                    "Creating repository in ",
                    join_path(base, ".inquest").as_str(),
                );
                ui.output(line.as_str());
                assert(ui@ =~= old(ui)@ + outputs(seq![line@]));
                Ok(true)
            } else {
                Err(e)
            }
        },
    }
}

/// Puts the durations of a run into the usual durations.
pub fn update_test_times_from_run(store: &mut Store, run: &TestRun)
    ensures
        times_map(final(store).times@) == with_times(
            times_map(old(store).times@),
            run.results@,
            run.results@.len(),
        ),
        final(store).runs == old(store).runs,
        final(store).failing == old(store).failing,
{
    store.update_test_times(run);
}

/// Brings the tests that fail up to date after a run of all tests, or of some.
pub fn update_repository_failing_tests(store: &mut Store, run: &TestRun, partial: bool)
    ensures
        test_names(final(store).failing@) == (if partial {
            updated_failing(test_names(old(store).failing@), run.results@)
        } else {
            failing_names(run.results@)
        }),
        final(store).runs == old(store).runs,
        final(store).times == old(store).times,
{
    if partial {
        store.update_failing_tests(run);
    } else {
        store.replace_failing_tests(run);
    }
}

/// What is said of a run.
pub open spec fn summary_lines(id: Seq<char>, run: TestRun) -> Seq<Seq<char>> {
    let s = run.results@;
    seq![
        "\nTest run "@ + id + ":"@,
        "  Total:   "@ + decimal(s.len()),
        "  Passed:  "@ + decimal((s.len() - failure_count(s)) as nat),
        "  Failed:  "@ + decimal(failure_count(s)),
    ] + (match run.interruption {
        Some(why) => seq![
            "  WARNING: Stream interrupted ("@ + why@ + "), results may be incomplete"@,
        ],
        None => Seq::empty(),
    })
}

/// Says how a run went.
pub fn display_test_summary(ui: &mut Transcript, run_id: &RunId, run: &TestRun)
    ensures
        final(ui)@ == old(ui)@ + outputs(summary_lines(run_id@, *run)),
{
    let mut out: Vec<String> = Vec::new();
    out.push(cat3("\nTest run ", run_id.as_str(), ":"));
    out.push(cat2("  Total:   ", count_text(run.total_tests()).as_str()));
    out.push(cat2("  Passed:  ", count_text(run.count_successes()).as_str()));
    out.push(cat2("  Failed:  ", count_text(run.count_failures()).as_str()));
    if let Some(why) = &run.interruption {
        out.push(
            cat3("  WARNING: Stream interrupted (", why.as_str(), "), results may be incomplete"),
        );
    }
    assert(texts(out@) =~= summary_lines(run_id@, *run));
    ui.output_all(&out);
}

/// A test that took longer than usual.
#[derive(Debug)]
pub struct SlowTest {
    /// The name.
    pub name: String,
    /// How long it took.
    pub actual: Duration,
    /// How long it usually takes.
    pub usual: Duration,
}

impl SortKey for SlowTest {
    /// The slowest first.
    open spec fn before(&self, other: &Self) -> bool {
        self.actual@ > other.actual@
    }

    proof fn weak_order(a: &Self, b: &Self, c: &Self) {
    }

    fn is_before(&self, other: &Self) -> (r: bool) {
        self.actual.as_nanos() > other.actual.as_nanos()
    }
}

/// Whether a result took more than three times as long as usual, and long enough to matter.
pub open spec fn is_slow(r: TestResult, times: Seq<Named<Duration>>) -> bool {
    &&& r.duration is Some
    &&& has_key(times, r.test_id@)
    &&& r.duration->0@ >= SLOW_TEST_WARNING_MIN_DURATION
    &&& r.duration->0@ > entry_of(times, r.test_id@).value@ * SLOW_TEST_WARNING_MULTIPLIER
}

/// Whether `v` lists the slow results, in order.
pub open spec fn lists_slow(
    v: Seq<SlowTest>,
    s: Seq<TestResult>,
    times: Seq<Named<Duration>>,
) -> bool
    decreases s.len(),
{
    if s.len() == 0 {
        v.len() == 0
    } else if is_slow(s.last(), times) {
        &&& v.len() > 0
        &&& v.last().name@ == s.last().test_id@
        &&& v.last().actual == s.last().duration->0
        &&& v.last().usual == entry_of(times, s.last().test_id@).value
        &&& lists_slow(v.drop_last(), s.drop_last(), times)
    } else {
        lists_slow(v, s.drop_last(), times)
    }
}

/// How a span relates to another, with one digit behind the point; `inf` where the other is none.
pub open spec fn ratio_text(num: nat, den: nat) -> Seq<char> {
    if den == 0 {
        "inf"@
    } else {
        fraction_text(binary_quotient(binary_seconds(num), binary_seconds(den)), 1)
    }
}

/// What is said of the slow test at a position.
pub open spec fn slow_part(v: Seq<SlowTest>, o: Seq<int>) -> spec_fn(int) -> Seq<Seq<char>> {
    |i: int|
        {
            let t = v[o[i]];
            seq![
                "    "@ + t.name@ + ": "@ + seconds_text(t.actual@, 1) + "s (was "@ + seconds_text(
                    t.usual@,
                    1,
                ) + "s, "@ + ratio_text(t.actual@, t.usual@) + "x slower)"@,
            ]
        }
}

/// What is said of slow tests: the ten slowest are named, the slowest first and by name among
/// equals.
pub open spec fn slow_lines(v: Seq<SlowTest>) -> Seq<Seq<char>> {
    if v.len() == 0 {
        Seq::empty()
    } else {
        seq![
            "\n  "@ + decimal(v.len())
                + " test(s) ran significantly slower than historical average (3x threshold):"@,
        ] + gathered(
            slow_part(v, order_of(v)),
            if v.len() > 10 {
                10
            } else {
                v.len()
            },
        )
    }
}

/// The slow results of a run.
fn slow_tests(run: &TestRun, times: &TextMap<Duration>) -> (r: Vec<SlowTest>)
    ensures
        lists_slow(r@, run.results@, times@),
{
    let all: &Vec<TestResult> = run.results.entries();
    let mut r: Vec<SlowTest> = Vec::new();
    for i in 0..all.len()
        invariant
            all@ == run.results@,
            lists_slow(r@, all@.take(i as int), times@),
    {
        let ghost before = r@;
        assert(all@.take(i + 1).drop_last() =~= all@.take(i as int));
        if let Some(actual) = all[i].duration {
            if let Some(usual) = times.get(all[i].test_id.as_str()) {
                let n: u128 = actual.as_nanos();
                if n >= SLOW_TEST_WARNING_MIN_DURATION && n > usual.as_nanos()
                    * SLOW_TEST_WARNING_MULTIPLIER {
                    r.push(
                        SlowTest {
                            name: all[i].test_id.as_str().to_owned(),
                            actual,
                            usual: *usual,
                        },
                    );
                    assert(r@.drop_last() =~= before);
                }
            }
        }
    }
    assert(all@.take(all@.len() as int) =~= all@);
    r
}

/// How a span relates to another, with one digit behind the point; `inf` where the other is none.
fn render_ratio(num: Duration, den: Duration) -> (s: String)
    ensures
        s@ == ratio_text(num@, den@),
{
    if den.as_nanos() == 0 {
        "inf".to_owned()
    } else {
        proof {
            seconds_are_positive(den@);
        }
        Binary::seconds(num).over(&Binary::seconds(den)).with_tenths()
    }
}

/// What is said of a slow test.
fn render_slow(t: &SlowTest) -> (s: String)
    ensures
        s@ == "    "@ + t.name@ + ": "@ + seconds_text(t.actual@, 1) + "s (was "@ + seconds_text(
            t.usual@,
            1,
        ) + "s, "@ + ratio_text(t.actual@, t.usual@) + "x slower)"@,
{
    let mut s: String = cat5(
        "    ",
        t.name.as_str(),
        ": ",
        seconds_with_tenths(t.actual).as_str(),
        "s (was ",
    );
    s.append(seconds_with_tenths(t.usual).as_str());
    s.append("s, ");
    s.append(render_ratio(t.actual, t.usual).as_str());
    s.append("x slower)");
    s
}

/// Warns of tests that took much longer than usual.
pub fn warn_slow_tests(ui: &mut Transcript, run: &TestRun, times: &TextMap<Duration>)
    ensures
        exists|v: Seq<SlowTest>| #[trigger]
            lists_slow(v, run.results@, times@) && final(ui)@ == old(ui)@ + outputs(
                slow_lines(v),
            ),
{
    let v: Vec<SlowTest> = slow_tests(run, times);
    let mut out: Vec<String> = Vec::new();
    if v.len() > 0 {
        out.push(
            cat3(
                "\n  ",
                count_text(v.len()).as_str(),
                " test(s) ran significantly slower than historical average (3x threshold):",
            ),
        );
        let ghost head = texts(out@);
        let order: Vec<usize> = sorted_order(&v);
        let ghost o = positions(order@);
        let n: usize = if v.len() > 10 {
            10
        } else {
            v.len()
        };
        for i in 0..n
            invariant
                n <= v@.len(),
                o == positions(order@),
                is_order(v@, o),
                texts(out@) =~= head + gathered(slow_part(v@, o), i as nat),
        {
            assert(0 <= o[i as int] < v@.len());
            out.push(render_slow(&v[order[i]]));
        }
    }
    assert(texts(out@) =~= slow_lines(v@));
    ui.output_all(&out);
}

/// What a run of the test command gave.
#[derive(Debug)]
pub struct RunOutput {
    /// The run.
    pub run_id: RunId,
    /// The results.
    pub results: Vec<TestResult>,
    /// Whether a command failed.
    pub any_command_failed: bool,
    /// How long it took.
    pub duration: Duration,
    /// The command.
    pub test_command: String,
    /// How many workers there were.
    pub concurrency: u32,
}

/// The run with the results of a list put in, one after the other.
pub open spec fn results_of(v: Seq<TestResult>, n: nat) -> Seq<TestResult>
    decreases n,
{
    if n == 0 {
        Seq::empty()
    } else {
        crate::collection::with_entry(results_of(v, (n - 1) as nat), v[n - 1])
    }
}

/// The exit code of a run: zero where no command and no test failed.
pub open spec fn exit_of(failed: bool, s: Seq<TestResult>) -> i32 {
    if failed || failure_count(s) > 0 {
        1
    } else {
        0
    }
}

/// A run ends with zero exactly if no command failed and no result is a failure, else with one.
pub proof fn exit_code_tells_failures(failed: bool, s: Seq<TestResult>)
    ensures
        exit_of(failed, s) == 0 <==> !failed && forall|i: int|
            0 <= i < s.len() ==> !is_failure((#[trigger] s[i]).status),
        exit_of(failed, s) == 0 || exit_of(failed, s) == 1,
{
    crate::repository::failures_are_counted(Seq::empty(), s);
}

/// The results of a run ascend by their tests.
proof fn results_ascend(v: Seq<TestResult>, n: nat)
    requires
        n <= v.len(),
    ensures
        keys_ascend(results_of(v, n)),
    decreases n,
{
    if n > 0 {
        results_ascend(v, (n - 1) as nat);
        with_entry_laws(results_of(v, (n - 1) as nat), v[n - 1]);
    }
}

/// A run has a result of each test that was told, the one that was told last.
pub proof fn last_results_count(v: Seq<TestResult>, n: nat, i: int)
    requires
        n <= v.len(),
        0 <= i < n,
        forall|k: int| i < k < n ==> (#[trigger] v[k]).test_id@ != v[i].test_id@,
    ensures
        has_key(results_of(v, n), v[i].test_id@),
        entry_of(results_of(v, n), v[i].test_id@) == v[i],
    decreases n,
{
    let before = results_of(v, (n - 1) as nat);
    let t = v[i].test_id@;
    results_ascend(v, (n - 1) as nat);
    with_entry_laws(before, v[n - 1]);
    if i < n - 1 {
        last_results_count(v, (n - 1) as nat, i);
        assert(v[n - 1].test_id@ != t);
        assert(crate::collection::Keyed::key_text(&v[n - 1]) != t);
        assert(has_key(before, t));
    } else {
        assert(crate::collection::Keyed::key_text(&v[n - 1]) == t);
    }
}

/// A run has results only of tests that were told.
pub proof fn results_were_told(v: Seq<TestResult>, n: nat, t: Seq<char>)
    requires
        n <= v.len(),
        forall|k: int| 0 <= k < n ==> (#[trigger] v[k]).test_id@ != t,
    ensures
        !has_key(results_of(v, n), t),
    decreases n,
{
    if n > 0 {
        let before = results_of(v, (n - 1) as nat);
        results_ascend(v, (n - 1) as nat);
        results_were_told(v, (n - 1) as nat, t);
        with_entry_laws(before, v[n - 1]);
        assert(v[n - 1].test_id@ != t);
        assert(crate::collection::Keyed::key_text(&v[n - 1]) != t);
        assert(!has_key(before, t));
    }
}

/// A test is told to be slow exactly if it took more than three times as long as it usually does,
/// and long enough to matter.
pub proof fn slow_tests_took_three_times_as_long(
    v: Seq<SlowTest>,
    s: Seq<TestResult>,
    times: Seq<Named<Duration>>,
    t: Seq<char>,
)
    requires
        lists_slow(v, s, times),
    ensures
        (exists|k: int| 0 <= k < v.len() && (#[trigger] v[k]).name@ == t) <==> exists|i: int|
            0 <= i < s.len() && (#[trigger] s[i]).test_id@ == t && has_key(times, t)
                && s[i].duration is Some && s[i].duration->0@ > 3 * entry_of(times, t).value@
                && s[i].duration->0@ >= SLOW_TEST_WARNING_MIN_DURATION,
        forall|k: int|
            0 <= k < v.len() ==> (#[trigger] v[k]).actual@ > 3 * v[k].usual@ && has_key(
                times,
                v[k].name@,
            ) && v[k].usual == entry_of(times, v[k].name@).value,
    decreases s.len(),
{
    if s.len() > 0 {
        let init = s.drop_last();
        let last = s.last();
        assert(s[s.len() - 1] == last);
        let w = if is_slow(last, times) {
            v.drop_last()
        } else {
            v
        };
        slow_tests_took_three_times_as_long(w, init, times, t);
        assert forall|k: int| 0 <= k < v.len() implies (#[trigger] v[k]).actual@ > 3 * v[k].usual@
            && has_key(times, v[k].name@) && v[k].usual == entry_of(times, v[k].name@).value by {
            if k < w.len() {
                assert(w[k] == v[k]);
            } else {
                assert(v[k] == v.last());
            }
        }
        if exists|k: int| 0 <= k < v.len() && (#[trigger] v[k]).name@ == t {
            let k = choose|k: int| 0 <= k < v.len() && (#[trigger] v[k]).name@ == t;
            if k < w.len() {
                assert(w[k].name@ == t);
                let i = choose|i: int|
                    0 <= i < init.len() && (#[trigger] init[i]).test_id@ == t && has_key(times, t)
                        && init[i].duration is Some && init[i].duration->0@ > 3 * entry_of(
                        times,
                        t,
                    ).value@ && init[i].duration->0@ >= SLOW_TEST_WARNING_MIN_DURATION;
                assert(s[i].test_id@ == t);
            } else {
                assert(v[k] == v.last());
                assert(s[s.len() - 1].test_id@ == t);
            }
        }
        if exists|i: int|
            0 <= i < s.len() && (#[trigger] s[i]).test_id@ == t && has_key(times, t)
                && s[i].duration is Some && s[i].duration->0@ > 3 * entry_of(times, t).value@
                && s[i].duration->0@ >= SLOW_TEST_WARNING_MIN_DURATION {
            let i = choose|i: int|
                0 <= i < s.len() && (#[trigger] s[i]).test_id@ == t && has_key(times, t)
                    && s[i].duration is Some && s[i].duration->0@ > 3 * entry_of(times, t).value@
                    && s[i].duration->0@ >= SLOW_TEST_WARNING_MIN_DURATION;
            if i < init.len() {
                assert(init[i].test_id@ == t);
                let k = choose|k: int| 0 <= k < w.len() && (#[trigger] w[k]).name@ == t;
                assert(v[k].name@ == t);
            } else {
                assert(v[v.len() - 1].name@ == t);
            }
        }
    }
}

/// The slowest tests are named first, at most ten of them.
pub proof fn slowest_tests_are_named_first(v: Seq<SlowTest>, i: int, j: int)
    requires
        0 <= i < j < v.len(),
    ensures
        v[order_of(v)[i]].actual@ >= v[order_of(v)[j]].actual@,
        slow_lines(v).len() <= 11,
{
    crate::sort::order_exists(v);
    let o = order_of(v);
    assert(crate::sort::ranks_before(v, o[i], o[j]));
    ten_lines(v, o, if v.len() > 10 {
        10
    } else {
        v.len()
    });
}

proof fn ten_lines(v: Seq<SlowTest>, o: Seq<int>, n: nat)
    ensures
        gathered(slow_part(v, o), n).len() == n,
    decreases n,
{
    if n > 0 {
        ten_lines(v, o, (n - 1) as nat);
    }
}

/// What git says of the commit and of changes to it.
#[derive(Debug)]
pub struct GitState {
    /// What `git rev-parse HEAD` gave, where it could be run.
    pub head: Option<ProcessOutput>,
    /// What `git status --porcelain` gave, where it could be run.
    pub status: Option<ProcessOutput>,
}

/// The commit, where git gave one.
pub open spec fn commit_of(g: GitState) -> Option<Seq<char>> {
    if g.head is Some && g.head->0.code == Some(0i32) {
        Some(trimmed(g.head->0.stdout@))
    } else {
        None
    }
}

/// Whether there are changes, where git told.
pub open spec fn dirty_of(g: GitState) -> Option<bool> {
    if g.status is Some && g.status->0.code == Some(0i32) {
        Some(g.status->0.stdout@.len() > 0)
    } else {
        None
    }
}

/// Whether `m` is what is to be stored of a run.
pub open spec fn is_metadata(
    m: RunMetadata,
    g: GitState,
    command: Seq<char>,
    concurrency: u32,
    duration: Duration,
    exit_code: i32,
) -> bool {
    &&& optional_text(m.git_commit) == commit_of(g)
    &&& m.git_dirty == dirty_of(g)
    &&& m.command is Some && m.command->0@ == command
    &&& m.concurrency == Some(concurrency)
    &&& m.duration == Some(duration)
    &&& m.exit_code == Some(exit_code)
    &&& m.test_args is None
    &&& m.profile is None
    &&& m.predicted_duration is None
}

/// What is to be stored of a run.
pub fn run_metadata(
    git: &GitState,
    command: &str,
    concurrency: u32,
    duration: Duration,
    exit_code: i32,
) -> (m: RunMetadata)
    ensures
        is_metadata(m, *git, command@, concurrency, duration, exit_code),
{
    let mut git_commit: Option<String> = None;
    if let Some(out) = &git.head {
        if let Some(0) = out.code {
            git_commit = Some(trim(out.stdout.as_str()));
        }
    }
    let mut git_dirty: Option<bool> = None;
    if let Some(out) = &git.status {
        if let Some(0) = out.code {
            git_dirty = Some(!out.stdout.as_str().is_empty());
        }
    }
    RunMetadata {
        git_commit,
        git_dirty,
        command: Some(command.to_owned()),
        concurrency: Some(concurrency),
        duration: Some(duration),
        exit_code: Some(exit_code),
        test_args: None,
        profile: None,
        predicted_duration: None,
    }
}

/// Stores what came of a run, which ended at a time, and says how it went. A run that has not been
/// recorded yet is added.
pub fn persist_and_display_run(
    ui: &mut Transcript,
    store: &mut Store,
    output: RunOutput,
    partial: bool,
    times: &TextMap<Duration>,
    git: &GitState,
    ended: Timestamp,
) -> (r: (i32, RunId))
    ensures
        ({
            let s = results_of(output.results@, output.results@.len());
            let code = exit_of(output.any_command_failed, s);
            let known = has_run(old(store).runs@, output.run_id@);
            let at = run_index(old(store).runs@, output.run_id@);
            &&& r.0 == code
            &&& r.1@ == output.run_id@
            &&& test_names(final(store).failing@) == (if partial {
                updated_failing(test_names(old(store).failing@), s)
            } else {
                failing_names(s)
            })
            &&& times_map(final(store).times@) == with_times(
                times_map(old(store).times@),
                s,
                s.len(),
            )
            &&& final(store).runs@.len() == old(store).runs@.len() + (if known {
                0int
            } else {
                1
            })
            &&& 0 <= at < final(store).runs@.len()
            &&& is_metadata(
                final(store).runs@[at].metadata,
                *git,
                output.test_command@,
                output.concurrency,
                output.duration,
                code,
            )
            &&& final(store).runs@[at].run.id@ == output.run_id@
            &&& known ==> final(store).runs@[at].run == old(store).runs@[at].run
            &&& !known ==> final(store).runs@[at].run.results@ == s
            &&& forall|i: int|
                0 <= i < old(store).runs@.len() && i != at ==> #[trigger] final(store).runs@[i]
                    == old(store).runs@[i]
            &&& exists|v: Seq<SlowTest>, run: TestRun|
                {
                    &&& #[trigger] lists_slow(v, s, times@)
                    &&& run.results@ == s
                    &&& run.interruption is None
                    &&& final(ui)@ == old(ui)@ + outputs(
                        #[trigger] summary_lines(output.run_id@, run) + slow_lines(v),
                    )
                }
        }),
{
    let RunOutput { run_id, results, any_command_failed, duration, test_command, concurrency } =
        output;
    let ghost given = results@;
    let mut run: TestRun = TestRun::new(run_id.copy());
    run.timestamp = ended;
    let mut rest: Vec<TestResult> = reversed(results);
    let ghost back = given.reverse();
    assert(back.take(back.len() as int) =~= back);
    while rest.len() > 0
        invariant
            back == given.reverse(),
            rest@.len() <= back.len(),
            rest@ == back.take(rest@.len() as int),
            run.id@ == run_id@,
            run.interruption is None,
            run.results@ == results_of(given, (given.len() - rest@.len()) as nat),
        decreases rest@.len(),
    {
        let ghost left = rest@;
        assert(left.drop_last() =~= back.take(left.len() - 1));
        if let Some(result) = rest.pop() {
            assert(result == given[given.len() - left.len()]);
            run.add_result(result);
        }
    }
    let ghost s = run.results@;
    let exit_code: i32 = if any_command_failed || run.count_failures() > 0 {
        1
    } else {
        0
    };
    update_repository_failing_tests(store, &run, partial);
    update_test_times_from_run(store, &run);
    let metadata: RunMetadata = run_metadata(
        git,
        test_command.as_str(),
        concurrency,
        duration,
        exit_code,
    );
    display_test_summary(ui, &run_id, &run);
    let ghost said = ui@;
    warn_slow_tests(ui, &run, times);
    proof {
        let v = choose|v: Seq<SlowTest>| #[trigger]
            lists_slow(v, s, times@) && ui@ == said + outputs(slow_lines(v));
        assert(ui@ =~= old(ui)@ + outputs(summary_lines(run_id@, run) + slow_lines(v)));
    }
    proof {
        run_index_bounds(store.runs@, run_id@);
    }
    store.keep_metadata(run, metadata);
    (exit_code, run_id)
}

} // verus!
