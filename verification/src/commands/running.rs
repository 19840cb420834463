//! Showing the runs that are going on.

use vstd::prelude::*;
use vstd::string::*;

use crate::collection::{has_key, Named, TextMap};
use crate::commands::prune::moment;
use crate::commands::Command;
use crate::error::{Error, Result};
use crate::eta::lengths;
use crate::machine::current_time;
use crate::repository::{failure_count, run_names, RunId, TestResult, TestRun};
use crate::store::{has_run, run_of, running_names, Store, StoredRun};
use crate::text::compose::{cat2, cat3, cat4, cat5, texts};
use crate::text::number::{count_text, decimal, decimal_int, decimal_text, signed_text};
use crate::time::{round_ratio, rounded, zero_pad, zero_padded, Duration, Timestamp, MAX_NANOS};
use crate::totals::{product_over, sum_of, sum_of_first};
use crate::ui::{outputs, Line, Transcript};

verus! {

broadcast use crate::text::compose::texts_push;

/// Command that shows the runs that are going on.
#[derive(Debug)]
pub struct RunningCommand {
    /// Where the project is.
    pub base_path: Option<String>,
}

/// Seconds as seconds, minutes and seconds, or hours and minutes.
pub open spec fn clock_text(secs: int) -> Seq<char> {
    if secs < 60 {
        decimal_int(secs) + "s"@
    } else if secs < 3600 {
        decimal((secs / 60) as nat) + "m "@ + zero_padded((secs % 60) as nat, 2) + "s"@
    } else {
        decimal((secs / 3600) as nat) + "h "@ + zero_padded(((secs % 3600) / 60) as nat, 2) + "m"@
    }
}

/// Seconds as seconds, minutes and seconds, or hours and minutes.
pub fn format_duration_secs(secs: i64) -> (s: String)
    ensures
        s@ == clock_text(secs as int),
{
    if secs < 60 {
        cat2(signed_text(secs).as_str(), "s")
    } else {
        let n: u128 = secs as u128;
        if n < 3600 {
            cat4(decimal_text(n / 60).as_str(), "m ", zero_pad(n % 60, 2).as_str(), "s")
        } else {
            let mins: u128 = (n % 3600) / 60;
            cat4(decimal_text(n / 3600).as_str(), "h ", zero_pad(mins, 2).as_str(), "m")
        }
    }
}

/// The usual durations of tests that a run has results of.
pub open spec fn done_lengths(times: Seq<Named<Duration>>, s: Seq<TestResult>) -> Seq<nat> {
    Seq::new(
        times.len(),
        |i: int|
            if has_key(s, times[i].name@) {
                times[i].value@
            } else {
                0
            },
    )
}

/// How far a run has come, by the usual durations of tests.
#[derive(Clone, Copy, Debug)]
pub struct Estimate {
    /// How many tests are expected, where that can be told.
    pub total: Option<usize>,
    /// How many hundredths are done, where that can be told.
    pub percent: Option<u128>,
    /// How many seconds the rest takes, where that can be told.
    pub eta_secs: Option<u128>,
}

/// A number, at most another one.
pub open spec fn at_most(n: nat, limit: nat) -> nat {
    if n > limit {
        limit
    } else {
        n
    }
}

/// Whether `e` is how far a run has come after some time: the tests with usual durations are
/// expected, and those with results count as done. The rest takes as long in relation as the time
/// gone by; where no time has gone by or nothing is done, as long as usual.
pub open spec fn is_estimate(
    e: Estimate,
    times: Seq<Named<Duration>>,
    s: Seq<TestResult>,
    elapsed: nat,
) -> bool {
    let all = sum_of(lengths(times));
    let done = sum_of(done_lengths(times, s));
    if times.len() == 0 {
        e.total is None && e.percent is None && e.eta_secs is None
    } else {
        &&& e.total is Some && e.total->0 == times.len()
        &&& if all == 0 {
            e.percent is None && e.eta_secs is None
        } else {
            &&& e.percent is Some && e.percent->0 == rounded(done * 100, all)
            &&& e.eta_secs is Some && e.eta_secs->0 == at_most(
                if elapsed > 0 && done > 0 {
                    (elapsed * (all - done) as nat) / done
                } else {
                    (all - done) as nat
                },
                MAX_NANOS as nat,
            ) / 1_000_000_000
        }
    }
}

/// How far a run has come after some time.
pub fn estimate_progress(times: &TextMap<Duration>, run: &TestRun, elapsed: Duration) -> (e: Estimate)
    requires
        sum_of(lengths(times@)) <= MAX_NANOS,
    ensures
        is_estimate(e, times@, run.results@, elapsed@),
{
    let v: &Vec<Named<Duration>> = times.entries();
    let n: usize = v.len();
    if n == 0 {
        return Estimate { total: None, percent: None, eta_secs: None };
    }
    let ghost a = done_lengths(v@, run.results@);
    let ghost b = lengths(v@);
    let mut done: u128 = 0;
    let mut all: u128 = 0;
    for i in 0..n
        invariant
            n == v@.len(),
            a == done_lengths(v@, run.results@),
            b == lengths(v@),
            sum_of(b) <= MAX_NANOS,
            done == sum_of(a.take(i as int)),
            all == sum_of(b.take(i as int)),
            done <= all,
    {
        proof {
            assert(a.take(i + 1).drop_last() =~= a.take(i as int));
            assert(b.take(i + 1).drop_last() =~= b.take(i as int));
            sum_of_first(b, i + 1);
        }
        let d: u128 = v[i].value.as_nanos();
        if run.results.contains_key(v[i].name.as_str()) {
            done = done + d;
        }
        all = all + d;
    }
    assert(a.take(n as int) =~= a);
    assert(b.take(n as int) =~= b);
    if all == 0 {
        return Estimate { total: Some(n), percent: None, eta_secs: None };
    }
    let percent: u128 = round_ratio(done * 100, all);
    let gone: u128 = elapsed.as_nanos();
    let rest: u128 = if gone > 0 && done > 0 {
        if done < all {
            match product_over(gone, all - done, done, MAX_NANOS) {
                Some(n) => n,
                None => MAX_NANOS,
            }
        } else {
            assert(gone as nat * 0 == 0);
            assert(0nat / (done as nat) == 0) by (nonlinear_arith)
                requires
                    done > 0,
            ;
            0
        }
    } else {
        all - done
    };
    Estimate { total: Some(n), percent: Some(percent), eta_secs: Some(rest / 1_000_000_000) }
}

/// What is said of a run that is going on.
pub open spec fn running_text(id: Seq<char>, s: Seq<TestResult>, e: Estimate, secs: int) -> Seq<char> {
    "Run "@ + id + ": "@ + decimal(s.len()) + (match e.total {
        Some(n) => "/"@ + decimal(n as nat),
        None => Seq::empty(),
    }) + " tests ("@ + decimal((s.len() - failure_count(s)) as nat) + " passed, "@ + decimal(
        failure_count(s),
    ) + " failed)"@ + (match e.percent {
        Some(p) => ", "@ + decimal(p as nat) + "% complete"@,
        None => Seq::empty(),
    }) + ", elapsed "@ + clock_text(secs) + (match e.eta_secs {
        Some(n) => ", ETA "@ + clock_text(
            if n > i64::MAX {
                i64::MAX as int
            } else {
                n as int
            },
        ),
        None => Seq::empty(),
    })
}

/// What is said of a run that is going on, given how far it has come.
pub fn render_running(run_id: &RunId, run: &TestRun, e: &Estimate, secs: i64) -> (s: String)
    ensures
        s@ == running_text(run_id@, run.results@, *e, secs as int),
{
    let total: String = match e.total {
        Some(n) => cat2("/", count_text(n).as_str()),
        None => String::new(),
    };
    let percent: String = match e.percent {
        Some(p) => cat3(", ", decimal_text(p).as_str(), "% complete"),
        None => String::new(),
    };
    let eta: String = match e.eta_secs {
        Some(n) => {
            let k: i64 = if n > 9_223_372_036_854_775_807 {
                9_223_372_036_854_775_807
            } else {
                n as i64
            };
            cat2(", ETA ", format_duration_secs(k).as_str())
        },
        None => String::new(),
    };
    let mut s: String = cat5(
        "Run ",
        run_id.as_str(),
        ": ",
        count_text(run.total_tests()).as_str(),
        total.as_str(),
    );
    s.append(" tests (");
    s.append(count_text(run.count_successes()).as_str());
    s.append(" passed, ");
    s.append(count_text(run.count_failures()).as_str());
    s.append(" failed)");
    s.append(percent.as_str());
    s.append(", elapsed ");
    s.append(format_duration_secs(secs).as_str());
    s.append(eta.as_str());
    assert(total@ =~= (match e.total {
        Some(n) => "/"@ + decimal(n as nat),
        None => Seq::empty(),
    }));
    assert(s@ =~= running_text(run_id@, run.results@, *e, secs as int));
    s
}

/// The whole seconds of a span, as far as a signed number holds them.
pub open spec fn whole_secs(nanos: nat) -> int {
    let n = nanos / 1_000_000_000;
    if n > i64::MAX {
        i64::MAX as int
    } else {
        n as int
    }
}

/// What is said of a run that is going on.
pub fn format_running_line(
    run_id: &RunId,
    run: &TestRun,
    historical: &TextMap<Duration>,
    elapsed: Duration,
) -> (s: String)
    requires
        sum_of(lengths(historical@)) <= MAX_NANOS,
    ensures
        exists|e: Estimate| #[trigger]
            is_estimate(e, historical@, run.results@, elapsed@) && s@ == running_text(
                run_id@,
                run.results@,
                e,
                whole_secs(elapsed@),
            ),
{
    let e: Estimate = estimate_progress(historical, run, elapsed);
    let n: u128 = elapsed.as_nanos() / 1_000_000_000;
    let secs: i64 = if n > 9_223_372_036_854_775_807 {
        9_223_372_036_854_775_807
    } else {
        n as i64
    };
    assert(is_estimate(e, historical@, run.results@, elapsed@));
    render_running(run_id, run, &e, secs)
}

/// How long ago a run was started, in whole seconds, as far as a signed number holds them.
pub open spec fn seconds_since(s: StoredRun, now: Timestamp) -> nat {
    let start = match s.started_at {
        Some(t) => t,
        None => s.run.timestamp,
    };
    let secs = (moment(now) - moment(start)) / 1_000_000_000;
    if moment(now) <= moment(start) {
        0
    } else if secs > i64::MAX {
        i64::MAX as nat
    } else {
        secs as nat
    }
}

/// Whether `line` is what is said of a run that is going on.
pub open spec fn is_running_line(
    line: Seq<char>,
    store: Store,
    id: Seq<char>,
    now: Timestamp,
) -> bool {
    let s = run_of(store.runs@, id);
    let secs = seconds_since(s, now);
    exists|e: Estimate| #[trigger]
        is_estimate(e, store.times@, s.run.results@, secs * 1_000_000_000) && line == running_text(
            id,
            s.run.results@,
            e,
            whole_secs(secs * 1_000_000_000),
        )
}

/// Whether the runs that are going on were told.
pub open spec fn told_running(
    store: Store,
    now: Timestamp,
    said_before: Seq<Line>,
    said_after: Seq<Line>,
) -> bool {
    let ids = running_names(store.runs@);
    if ids.len() == 0 {
        said_after == said_before + outputs(seq!["No test runs currently in progress."@])
    } else {
        exists|lines: Seq<Seq<char>>|
            {
                &&& said_after == said_before + #[trigger] outputs(lines)
                &&& lines.len() == ids.len()
                &&& forall|i: int|
                    0 <= i < ids.len() ==> is_running_line(#[trigger] lines[i], store, ids[i], now)
            }
    }
}

/// The names of runs that are going on are those of recorded runs.
proof fn running_are_recorded(runs: Seq<StoredRun>, n: int)
    requires
        0 <= n <= runs.len(),
    ensures
        forall|i: int|
            0 <= i < running_names(runs.take(n)).len() ==> has_run(
                runs,
                #[trigger] running_names(runs.take(n))[i],
            ),
    decreases n,
{
    if n > 0 {
        running_are_recorded(runs, n - 1);
        assert(runs.take(n).drop_last() =~= runs.take(n - 1));
        let id = runs[n - 1].run.id@;
        crate::store::run_index_bounds(runs, id);
        assert(has_run(runs, id)) by {
            if !has_run(runs, id) {
                assert(runs[n - 1].run.id@ != id);
            }
        }
        let before = running_names(runs.take(n - 1));
        let all = running_names(runs.take(n));
        assert(runs.take(n).last() == runs[n - 1]);
        assert forall|i: int| 0 <= i < all.len() implies has_run(runs, #[trigger] all[i]) by {
            if i < before.len() {
                assert(all[i] == before[i]);
            }
        }
    }
}

impl RunningCommand {
    /// A command for a project.
    pub fn new(base_path: Option<String>) -> (r: Self)
        ensures
            r == (RunningCommand { base_path }),
    {
        RunningCommand { base_path }
    }

    /// Shows the runs that are going on at a point in time.
    pub fn execute_at(&self, store: &Store, now: Timestamp, ui: &mut Transcript) -> (r: Result<i32>)
        requires
            sum_of(lengths(store.times@)) <= MAX_NANOS,
        ensures
            r matches Ok(code) && code == 0,
            told_running(*store, now, old(ui)@, final(ui)@),
    {
        let ids: Vec<RunId> = store.get_running_run_ids();
        let ghost names = running_names(store.runs@);
        proof {
            running_are_recorded(store.runs@, store.runs@.len() as int);
            assert(store.runs@.take(store.runs@.len() as int) =~= store.runs@);
        }
        assert(names.len() == ids@.len());
        if ids.len() == 0 {
            ui.output("No test runs currently in progress.");
            assert(ui@ =~= old(ui)@ + outputs(seq!["No test runs currently in progress."@]));
            return Ok(0);
        }
        let mut lines: Vec<String> = Vec::new();
        for i in 0..ids.len()
            invariant
                names == running_names(store.runs@),
                run_names(ids@) == names,
                sum_of(lengths(store.times@)) <= MAX_NANOS,
                forall|k: int| 0 <= k < names.len() ==> has_run(store.runs@, #[trigger] names[k]),
                lines@.len() == i,
                forall|k: int|
                    0 <= k < i ==> is_running_line(#[trigger] texts(lines@)[k], *store, names[k], now),
        {
            assert(names[i as int] == ids@[i as int]@);
            match store.find(ids[i].as_str()) {
                Some(s) => {
                    let start: Timestamp = match s.started_at {
                        Some(t) => t,
                        None => s.run.timestamp,
                    };
                    let from: i128 = start.seconds as i128 * 1_000_000_000 + start.nanos as i128;
                    let to: i128 = now.seconds as i128 * 1_000_000_000 + now.nanos as i128;
                    let secs: i128 = if to <= from {
                        0
                    } else if (to - from) / 1_000_000_000 > 9_223_372_036_854_775_807 {
                        9_223_372_036_854_775_807
                    } else {
                        (to - from) / 1_000_000_000
                    };
                    assert(secs == seconds_since(*s, now));
                    let elapsed: Duration = Duration::from_nanos(secs as u128 * 1_000_000_000);
                    let line: String = format_running_line(
                        &ids[i],
                        &s.run,
                        &store.times,
                        elapsed,
                    );
                    let ghost before = texts(lines@);
                    proof {
                        let e = choose|e: Estimate| #[trigger]
                            is_estimate(e, store.times@, s.run.results@, elapsed@) && line@
                                == running_text(
                                names[i as int],
                                s.run.results@,
                                e,
                                whole_secs(elapsed@),
                            );
                        assert(elapsed@ == seconds_since(*s, now) * 1_000_000_000);
                        assert(is_estimate(
                            e,
                            store.times@,
                            s.run.results@,
                            seconds_since(*s, now) * 1_000_000_000,
                        ));
                    }
                    assert(is_running_line(line@, *store, names[i as int], now));
                    lines.push(line);
                    assert(texts(lines@) =~= before.push(line@));
                },
                None => {
                    return Err(Error::TestRunNotFound(ids[i].as_str().to_owned()));
                },
            }
        }
        ui.output_all(&lines);
        assert(ui@ == old(ui)@ + outputs(texts(lines@)));
        Ok(0)
    }

    /// Shows the runs that are going on.
    pub fn execute(&self, store: &Store, ui: &mut Transcript) -> (r: Result<i32>)
        requires
            sum_of(lengths(store.times@)) <= MAX_NANOS,
        ensures
            r matches Ok(code) && code == 0,
            exists|now: Timestamp| #[trigger] told_running(*store, now, old(ui)@, final(ui)@),
    {
        let now: Timestamp = current_time();
        self.execute_at(store, now, ui)
    }
}

/// A run of which all expected tests have results is done, and nothing is left. A run of which none
/// has a result has just begun, and takes as long as usual. In between it is never more than done.
pub proof fn estimate_goes_from_nothing_to_all(
    e: Estimate,
    times: Seq<Named<Duration>>,
    s: Seq<TestResult>,
    elapsed: nat,
)
    requires
        is_estimate(e, times, s, elapsed),
        sum_of(lengths(times)) > 0,
        sum_of(lengths(times)) <= MAX_NANOS,
    ensures
        e.percent is Some && e.percent->0 <= 100,
        e.eta_secs is Some,
        (forall|i: int| 0 <= i < times.len() ==> has_key(s, (#[trigger] times[i]).name@))
            ==> e.percent->0 == 100 && e.eta_secs->0 == 0,
        (forall|i: int| 0 <= i < times.len() ==> !has_key(s, (#[trigger] times[i]).name@))
            ==> e.percent->0 == 0 && e.eta_secs->0 == sum_of(lengths(times)) / 1_000_000_000,
{
    let all = sum_of(lengths(times));
    let done = sum_of(done_lengths(times, s));
    done_is_part(times, s, times.len() as int);
    assert(done_lengths(times, s).take(times.len() as int) =~= done_lengths(times, s));
    assert(lengths(times).take(times.len() as int) =~= lengths(times));
    if times.len() == 0 {
        assert(lengths(times) =~= Seq::<nat>::empty());
        assert(sum_of(lengths(times)) == 0);
    }
    part_is_at_most_all(done, all);
    if forall|i: int| 0 <= i < times.len() ==> has_key(s, (#[trigger] times[i]).name@) {
        assert(done_lengths(times, s) =~= lengths(times));
        assert(done == all);
        whole_is_all(all);
        if elapsed > 0 {
            assert(elapsed * (all - done) as nat == 0) by (nonlinear_arith)
                requires
                    all == done,
            ;
            assert(0nat / done == 0) by (nonlinear_arith)
                requires
                    done > 0,
            ;
        }
    }
    if forall|i: int| 0 <= i < times.len() ==> !has_key(s, (#[trigger] times[i]).name@) {
        nothing_done(times, s, times.len() as int);
        assert(done == 0);
        nothing_is_none(all);
    }
}

proof fn done_is_part(times: Seq<Named<Duration>>, s: Seq<TestResult>, n: int)
    requires
        0 <= n <= times.len(),
    ensures
        sum_of(done_lengths(times, s).take(n)) <= sum_of(lengths(times).take(n)),
    decreases n,
{
    if n > 0 {
        done_is_part(times, s, n - 1);
        assert(done_lengths(times, s).take(n).drop_last() =~= done_lengths(times, s).take(n - 1));
        assert(lengths(times).take(n).drop_last() =~= lengths(times).take(n - 1));
    } else {
        assert(done_lengths(times, s).take(0) =~= Seq::<nat>::empty());
    }
}

proof fn nothing_done(times: Seq<Named<Duration>>, s: Seq<TestResult>, n: int)
    requires
        0 <= n <= times.len(),
        forall|i: int| 0 <= i < times.len() ==> !has_key(s, (#[trigger] times[i]).name@),
    ensures
        sum_of(done_lengths(times, s).take(n)) == 0,
    decreases n,
{
    let d = done_lengths(times, s);
    if n > 0 {
        nothing_done(times, s, n - 1);
        assert(d.take(n).drop_last() =~= d.take(n - 1));
        assert(!has_key(s, times[n - 1].name@));
    } else {
        assert(d.take(0) =~= Seq::<nat>::empty());
    }
}

proof fn whole_is_all(all: nat)
    requires
        all > 0,
    ensures
        rounded(all * 100, all) == 100,
{
    assert(all * 100 / all == 100 && (all * 100) % all == 0) by (nonlinear_arith)
        requires
            all > 0,
    ;
}

proof fn nothing_is_none(all: nat)
    requires
        all > 0,
    ensures
        rounded(0nat * 100, all) == 0,
{
    assert(0nat / all == 0 && 0nat % all == 0) by (nonlinear_arith)
        requires
            all > 0,
    ;
}

proof fn part_is_at_most_all(done: nat, all: nat)
    requires
        all > 0,
        done <= all,
    ensures
        rounded(done * 100, all) <= 100,
{
    if done == all {
        whole_is_all(all);
    } else {
        assert(done * 100 / all <= 99) by (nonlinear_arith)
            requires
                done < all,
        ;
    }
}

/// A run has been going on for the whole seconds from its start to now; one that starts later has
/// been for none.
pub proof fn elapsed_is_the_time_since_the_start(s: StoredRun, now: Timestamp)
    ensures
        ({
            let start = match s.started_at {
                Some(t) => t,
                None => s.run.timestamp,
            };
            let nanos = (now.seconds - start.seconds) * 1_000_000_000 + now.nanos - start.nanos;
            let secs = seconds_since(s, now);
            &&& nanos <= 0 ==> secs == 0
            &&& nanos > 0 && nanos < i64::MAX * 1_000_000_000 ==> secs * 1_000_000_000 <= nanos < (
            secs + 1) * 1_000_000_000
        }),
{
}

impl Command for RunningCommand {
    fn name(&self) -> (r: &str)
        ensures
            r@ == "running"@,
    {
        "running"
    }

    fn help(&self) -> (r: &str)
        ensures
            r@ == "Show currently in-progress test runs"@,
    {
        "Show currently in-progress test runs"
    }
}

} // verus!
