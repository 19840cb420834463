//! Waiting for runs to end.
//!
//! The caller looks at the recorded runs again and again; what is said each time, and whether to go
//! on waiting, is decided here.

use vstd::prelude::*;
use vstd::string::*;

use crate::collection::{has_key, keys_ascend, with_entry_laws, KeyedList, Named, TextMap, Keyed};
use crate::commands::Command;
use crate::error::{Error, Failure, Result};
use crate::gather::gathered;
use crate::repository::{failure_count, filters_statuses, is_failure, run_names, status_text, RunId, TestResult, TestRun, TestStatus};
use crate::store::{has_run, names_run, run_of, running_names, running_names_are, Store, StoredRun};
use crate::text::compose::{cat4, cat5, join, joined, texts};
use crate::text::number::{count_text, decimal, decimal_text};
use crate::text::order::text_eq;
use crate::text::scan::has_text;
use crate::time::Duration;
use crate::ui::{outputs, Line, Transcript};

verus! {

broadcast use {crate::text::compose::texts_push, crate::repository::run_names_push};

/// The exit code where runs do not end in time.
pub const EXIT_TIMEOUT: i32 = 1;

/// Command that waits for runs to end.
#[derive(Debug)]
pub struct WaitCommand {
    /// Where the project is.
    pub base_path: Option<String>,
    /// The run to wait for; all that are going on where none is named.
    pub run_id: Option<String>,
    /// How long to wait.
    pub timeout: Duration,
    /// Results that end the waiting.
    pub status_filter: Option<Vec<TestStatus>>,
    /// Whether to tell results as they come.
    pub stream: bool,
    /// Whether to tell failures only.
    pub only_failures: bool,
    /// How long to wait before looking again.
    pub poll_interval: Duration,
}

/// The tests of a run that have been seen.
#[derive(Debug)]
pub struct SeenRun {
    /// The run.
    pub run: String,
    /// The tests.
    pub tests: TextMap<bool>,
}

/// The results that have been seen.
#[derive(Debug)]
pub struct WaitProgress {
    /// The runs with the tests that have been seen.
    pub seen: Vec<SeenRun>,
}

/// Whether a result has been seen.
pub open spec fn is_seen(seen: Seq<SeenRun>, run: Seq<char>, test: Seq<char>) -> bool {
    exists|i: int|
        0 <= i < seen.len() && (#[trigger] seen[i]).run@ == run && has_key(seen[i].tests@, test)
}

impl View for WaitProgress {
    type V = Set<(Seq<char>, Seq<char>)>;

    open spec fn view(&self) -> Set<(Seq<char>, Seq<char>)> {
        Set::new(|p: (Seq<char>, Seq<char>)| is_seen(self.seen@, p.0, p.1))
    }
}

impl WaitProgress {
    /// Nothing has been seen.
    pub fn new() -> (r: Self)
        ensures
            r@ == Set::<(Seq<char>, Seq<char>)>::empty(),
    {
        let r: WaitProgress = WaitProgress { seen: Vec::new() };
        assert(r@ =~= Set::<(Seq<char>, Seq<char>)>::empty());
        r
    }

    /// Takes note of a result, and tells whether it had not been seen.
    fn insert(&mut self, run: &str, test: &str) -> (r: bool)
        ensures
            r == !old(self)@.contains((run@, test@)),
            final(self)@ == old(self)@.insert((run@, test@)),
    {
        let n: usize = self.seen.len();
        let mut i: usize = 0;
        while i < n && !text_eq(self.seen[i].run.as_str(), run)
            invariant
                i <= n == self.seen@.len(),
                forall|k: int| 0 <= k < i ==> (#[trigger] self.seen@[k]).run@ != run@,
            decreases n - i,
        {
            i += 1;
        }
        let mut k: usize = i;
        while k < n
            invariant
                i <= k <= n == self.seen@.len(),
                self == old(self),
                forall|j: int| 0 <= j < i ==> (#[trigger] self.seen@[j]).run@ != run@,
                forall|j: int|
                    i <= j < k ==> !((#[trigger] self.seen@[j]).run@ == run@ && has_key(
                        self.seen@[j].tests@,
                        test@,
                    )),
            decreases n - k,
        {
            if text_eq(self.seen[k].run.as_str(), run) && self.seen[k].tests.contains_key(test) {
                proof {
                    assert(is_seen(self.seen@, run@, test@));
                    assert(self@.contains((run@, test@)));
                    assert(self@ =~= self@.insert((run@, test@)));
                }
                return false;
            }
            k += 1;
        }
        let ghost before = self.seen@;
        assert(!is_seen(before, run@, test@));
        let e: Named<bool> = Named { name: test.to_owned(), value: true };
        let ghost g = e;
        if i < n {
            let mut entry: SeenRun = self.seen.swap_remove(i);
            let ghost tests = entry.tests@;
            let _ = entry.tests.entries();
            entry.tests.put(e);
            proof {
                with_entry_laws(tests, g);
                assert(g.key_text() == test@);
            }
            let ghost changed = entry;
            self.seen.push(entry);
            proof {
                let after = self.seen@;
                let m = after.len() - 1;
                assert(after[m] == changed);
                assert forall|p: (Seq<char>, Seq<char>)| is_seen(after, p.0, p.1) == (is_seen(
                    before,
                    p.0,
                    p.1,
                ) || p == (run@, test@)) by {
                    if is_seen(before, p.0, p.1) {
                        let j = choose|j: int|
                            0 <= j < before.len() && (#[trigger] before[j]).run@ == p.0 && has_key(
                                before[j].tests@,
                                p.1,
                            );
                        if j == i {
                            assert(has_key(after[m].tests@, p.1)) by {
                                if p.1 != test@ {
                                    assert(has_key(tests, p.1));
                                }
                            }
                            assert(after[m].run@ == p.0);
                        } else if j == before.len() - 1 {
                            assert(after[i as int] == before[j]);
                        } else {
                            assert(after[j] == before[j]);
                        }
                    }
                    if p == (run@, test@) {
                        assert(after[m].run@ == run@ && has_key(after[m].tests@, test@));
                    }
                    if is_seen(after, p.0, p.1) {
                        let j = choose|j: int|
                            0 <= j < after.len() && (#[trigger] after[j]).run@ == p.0 && has_key(
                                after[j].tests@,
                                p.1,
                            );
                        if j == m {
                            assert(p.0 == run@);
                            if p.1 != test@ {
                                assert(has_key(tests, p.1));
                                assert(before[i as int].run@ == p.0);
                            }
                        } else if j == i {
                            assert(before[before.len() - 1] == after[j]);
                        } else {
                            assert(before[j] == after[j]);
                        }
                    }
                }
            }
        } else {
            let mut tests: TextMap<bool> = KeyedList::new();
            let ghost empty = tests@;
            let _ = tests.entries();
            tests.put(e);
            proof {
                with_entry_laws(empty, g);
                assert(g.key_text() == test@);
            }
            let ghost one = tests@;
            self.seen.push(SeenRun { run: run.to_owned(), tests });
            proof {
                let after = self.seen@;
                let m = after.len() - 1;
                assert(after[m].run@ == run@ && after[m].tests@ == one);
                assert forall|p: (Seq<char>, Seq<char>)| is_seen(after, p.0, p.1) == (is_seen(
                    before,
                    p.0,
                    p.1,
                ) || p == (run@, test@)) by {
                    if is_seen(before, p.0, p.1) {
                        let j = choose|j: int|
                            0 <= j < before.len() && (#[trigger] before[j]).run@ == p.0 && has_key(
                                before[j].tests@,
                                p.1,
                            );
                        assert(after[j] == before[j]);
                    }
                    if p == (run@, test@) {
                        assert(has_key(after[m].tests@, test@));
                    }
                    if is_seen(after, p.0, p.1) {
                        let j = choose|j: int|
                            0 <= j < after.len() && (#[trigger] after[j]).run@ == p.0 && has_key(
                                after[j].tests@,
                                p.1,
                            );
                        if j == m {
                            if p.1 != test@ {
                                assert(has_key(empty, p.1));
                            }
                        } else {
                            assert(before[j] == after[j]);
                        }
                    }
                }
            }
        }
        assert(self@ =~= old(self)@.insert((run@, test@)));
        true
    }
}

/// What is told of the result at a position, unless it has been seen.
pub open spec fn told_part(
    c: WaitCommand,
    run: Seq<char>,
    s: Seq<TestResult>,
    seen: Set<(Seq<char>, Seq<char>)>,
) -> spec_fn(int) -> Seq<Seq<char>> {
    |i: int|
        if seen.contains((run, s[i].test_id@)) || (c.only_failures && !is_failure(s[i].status)) {
            Seq::empty()
        } else {
            seq![run + " ["@ + status_text(s[i].status) + "] "@ + s[i].test_id@]
        }
}

/// The seen results with the first `n` results of a run.
pub open spec fn seen_with(
    seen: Set<(Seq<char>, Seq<char>)>,
    run: Seq<char>,
    s: Seq<TestResult>,
    n: int,
) -> Set<(Seq<char>, Seq<char>)> {
    Set::new(
        |p: (Seq<char>, Seq<char>)|
            seen.contains(p) || (p.0 == run && exists|i: int|
                0 <= i < n && (#[trigger] s[i]).test_id@ == p.1),
    )
}

/// What is told, and what has been seen then.
pub struct Told {
    /// What is told.
    pub lines: Seq<Seq<char>>,
    /// What has been seen.
    pub seen: Set<(Seq<char>, Seq<char>)>,
}

/// What is told of the first `n` runs.
pub open spec fn told(
    c: WaitCommand,
    ids: Seq<Seq<char>>,
    n: nat,
    runs: Seq<StoredRun>,
    seen: Set<(Seq<char>, Seq<char>)>,
) -> Told
    decreases n,
{
    if n == 0 {
        Told { lines: Seq::empty(), seen }
    } else {
        let before = told(c, ids, (n - 1) as nat, runs, seen);
        let id = ids[n - 1];
        if has_run(runs, id) {
            let s = run_of(runs, id).run.results@;
            Told {
                lines: before.lines + gathered(told_part(c, id, s, before.seen), s.len()),
                seen: seen_with(before.seen, id, s, s.len() as int),
            }
        } else {
            before
        }
    }
}

/// The results of a run with one of the statuses.
pub open spec fn matched(s: Seq<TestResult>, statuses: Seq<TestStatus>) -> Seq<TestResult>
    decreases s.len(),
{
    if s.len() == 0 {
        Seq::empty()
    } else {
        let before = matched(s.drop_last(), statuses);
        if statuses.contains(s.last().status) {
            before.push(s.last())
        } else {
            before
        }
    }
}

/// The line of a matching result.
pub open spec fn matched_part(m: Seq<TestResult>) -> spec_fn(int) -> Seq<Seq<char>> {
    |i: int| seq!["  "@ + m[i].test_id@ + " ["@ + status_text(m[i].status) + "]"@]
}

/// What is said of a run with matching results.
pub open spec fn matched_lines(id: Seq<char>, s: Seq<TestResult>, statuses: Seq<TestStatus>) -> Seq<
    Seq<char>,
> {
    let m = matched(s, statuses);
    seq![
        "Run "@ + id + ": "@ + decimal(m.len()) + " test(s) matched status filter ("@ + decimal(
            (s.len() - failure_count(s)) as nat,
        ) + " passed / "@ + decimal(failure_count(s)) + " failed so far):"@,
    ] + gathered(matched_part(m), m.len())
}

/// The first of the runs, from position `from` on, with matching results.
pub open spec fn first_matching(
    ids: Seq<Seq<char>>,
    from: int,
    runs: Seq<StoredRun>,
    statuses: Seq<TestStatus>,
) -> Option<Seq<char>>
    decreases ids.len() - from,
{
    if 0 <= from < ids.len() {
        if has_run(runs, ids[from]) && matched(
            run_of(runs, ids[from]).run.results@,
            statuses,
        ).len() > 0 {
            Some(ids[from])
        } else {
            first_matching(ids, from + 1, runs, statuses)
        }
    } else {
        None
    }
}

/// The first of the runs with results that end the waiting.
pub open spec fn filter_hit(c: WaitCommand, ids: Seq<Seq<char>>, runs: Seq<StoredRun>) -> Option<
    Seq<char>,
> {
    match c.status_filter {
        Some(v) => first_matching(ids, 0, runs, v@),
        None => None,
    }
}

/// What came of looking at the runs: what was said, what has been seen, and the exit code, or
/// nothing where the waiting goes on.
pub struct WaitStep {
    /// What was said.
    pub lines: Seq<Line>,
    /// What has been seen.
    pub seen: Set<(Seq<char>, Seq<char>)>,
    /// The exit code.
    pub exit: Option<i32>,
}

/// The runs to look at.
pub open spec fn watched(c: WaitCommand, runs: Seq<StoredRun>) -> Seq<Seq<char>> {
    match c.run_id {
        Some(id) => seq![id@],
        None => running_names(runs),
    }
}

/// Whether a run that is waited for is going on.
pub open spec fn is_going_on(c: WaitCommand, runs: Seq<StoredRun>) -> bool {
    match c.run_id {
        Some(id) => has_text(running_names(runs), id@),
        None => running_names(runs).len() > 0,
    }
}

/// What is said where runs do not end in time.
pub open spec fn timeout_line(c: WaitCommand, runs: Seq<StoredRun>) -> Seq<char> {
    let names = joined(running_names(runs), ", "@);
    "Timed out after "@ + decimal(c.timeout@ / 1_000_000_000) + "s; still running: "@ + (
    if names.len() == 0 {
        "(none)"@
    } else {
        names
    })
}

/// What comes of looking at the runs after some time.
pub open spec fn wait_step(
    c: WaitCommand,
    runs: Seq<StoredRun>,
    seen: Set<(Seq<char>, Seq<char>)>,
    elapsed: nat,
) -> WaitStep {
    let ids = watched(c, runs);
    let t = if c.stream {
        told(c, ids, ids.len(), runs, seen)
    } else {
        Told { lines: Seq::empty(), seen }
    };
    let hit = filter_hit(c, ids, runs);
    if !is_going_on(c, runs) {
        WaitStep {
            lines: outputs(
                t.lines + (if c.stream {
                    Seq::empty()
                } else {
                    seq!["No matching runs are in progress"@]
                }),
            ),
            seen: t.seen,
            exit: Some(0),
        }
    } else if hit is Some {
        WaitStep {
            lines: outputs(
                t.lines + (if c.stream {
                    Seq::empty()
                } else {
                    matched_lines(hit->0, run_of(runs, hit->0).run.results@, c.status_filter->0@)
                }),
            ),
            seen: t.seen,
            exit: Some(0),
        }
    } else if elapsed >= c.timeout@ {
        WaitStep {
            lines: outputs(t.lines) + seq![Line::Error(timeout_line(c, runs))],
            seen: t.seen,
            exit: Some(EXIT_TIMEOUT),
        }
    } else {
        WaitStep { lines: outputs(t.lines), seen: t.seen, exit: None }
    }
}

/// The results of a run with one of the statuses.
fn find_matched<'a>(run: &'a TestRun, statuses: &Vec<TestStatus>) -> (r: Vec<&'a TestResult>)
    ensures
        r@ == crate::store::refs(matched(run.results@, statuses@)),
{
    let v: &'a Vec<TestResult> = run.results.entries();
    let mut r: Vec<&'a TestResult> = Vec::new();
    assert(r@ =~= crate::store::refs(matched(v@.take(0), statuses@)));
    for i in 0..v.len()
        invariant
            v@ == run.results@,
            r@ == crate::store::refs(matched(v@.take(i as int), statuses@)),
    {
        assert(v@.take(i + 1).drop_last() =~= v@.take(i as int));
        let mut found: bool = false;
        for k in 0..statuses.len()
            invariant
                i < v@.len(),
                found <==> exists|j: int| 0 <= j < k && #[trigger] statuses@[j] == v@[i as int].status,
        {
            if statuses[k] == v[i].status {
                found = true;
            }
        }
        proof {
            if found {
                let j = choose|j: int|
                    0 <= j < statuses@.len() && #[trigger] statuses@[j] == v@[i as int].status;
                assert(statuses@.contains(v@[i as int].status));
            }
            if statuses@.contains(v@[i as int].status) {
                let j = choose|j: int| 0 <= j < statuses@.len() && statuses@[j] == v@[i as int].status;
                assert(statuses@[j] == v@[i as int].status);
            }
        }
        if found {
            r.push(&v[i]);
        }
        assert(r@ =~= crate::store::refs(matched(v@.take(i + 1), statuses@)));
    }
    assert(v@.take(v@.len() as int) =~= v@);
    r
}

/// What is said of a run with matching results.
fn render_matched(id: &str, run: &TestRun, m: &Vec<&TestResult>, Ghost(statuses): Ghost<Seq<TestStatus>>) -> (r: Vec<
    String,
>)
    requires
        m@ == crate::store::refs(matched(run.results@, statuses)),
    ensures
        texts(r@) == matched_lines(id@, run.results@, statuses),
{
    let ghost all = matched(run.results@, statuses);
    let mut first: String = cat5(
        "Run ",
        id,
        ": ",
        count_text(m.len()).as_str(),
        " test(s) matched status filter (",
    );
    first.append(count_text(run.count_successes()).as_str());
    first.append(" passed / ");
    first.append(count_text(run.count_failures()).as_str());
    first.append(" failed so far):");
    let mut r: Vec<String> = Vec::new();
    r.push(first);
    let ghost head = texts(r@);
    for i in 0..m.len()
        invariant
            m@ == crate::store::refs(all),
            texts(r@) =~= head + gathered(matched_part(all), i as nat),
    {
        assert(*m@[i as int] == all[i as int]);
        r.push(cat5("  ", m[i].test_id.as_str(), " [", m[i].status.text(), "]"));
    }
    assert(texts(r@) =~= matched_lines(id@, run.results@, statuses));
    r
}

impl WaitCommand {
    /// A command that waits for a run, or for all that are going on.
    pub fn new(
        base_path: Option<String>,
        run_id: Option<String>,
        timeout: Duration,
        status_filters: Vec<String>,
        stream: bool,
        only_failures: bool,
    ) -> (r: Result<Self>)
        ensures
            match filters_statuses(texts(status_filters@)) {
                Ok(s) => {
                    &&& r matches Ok(c)
                    &&& c.base_path == base_path
                    &&& c.run_id == run_id
                    &&& c.timeout == timeout
                    &&& c.stream == stream
                    &&& c.only_failures == only_failures
                    &&& c.poll_interval@ == 2_000_000_000
                    &&& c.status_filter is Some == (status_filters@.len() > 0)
                    &&& c.status_filter is Some ==> c.status_filter->0@ == s
                },
                Err(f) => r matches Err(e) && e@ == Failure::Config(
                    "Unknown status filter '"@ + f + "'"@,
                ),
            },
    {
        let status_filter: Option<Vec<TestStatus>> = if status_filters.len() == 0 {
            None
        } else {
            match TestStatus::parse_filters(&status_filters) {
                Ok(v) => Some(v),
                Err(e) => {
                    return Err(e);
                },
            }
        };
        Ok(
            WaitCommand {
                base_path,
                run_id,
                timeout,
                status_filter,
                stream,
                only_failures,
                poll_interval: Duration::from_secs(2),
            },
        )
    }

    /// Tells the results of runs that have not been seen.
    fn tell(&self, p: &mut WaitProgress, ids: &Vec<RunId>, store: &Store, ui: &mut Transcript)
        ensures
            ({
                let t = told(*self, run_names(ids@), ids@.len(), store.runs@, old(p)@);
                final(p)@ == t.seen && final(ui)@ == old(ui)@ + outputs(t.lines)
            }),
    {
        let ghost names = run_names(ids@);
        let ghost start = p@;
        assert(ui@ =~= old(ui)@ + outputs(Seq::empty()));
        for i in 0..ids.len()
            invariant
                names == run_names(ids@),
                p@ == told(*self, names, i as nat, store.runs@, start).seen,
                ui@ == old(ui)@ + outputs(told(*self, names, i as nat, store.runs@, start).lines),
        {
            let ghost before = told(*self, names, i as nat, store.runs@, start);
            let id: &str = ids[i].as_str();
            if let Some(stored) = store.find(id) {
                let v: &Vec<TestResult> = stored.run.results.entries();
                let ghost part = told_part(*self, id@, v@, before.seen);
                assert(seen_with(before.seen, id@, v@, 0) =~= before.seen);
                assert(before.lines + Seq::empty() =~= before.lines);
                for j in 0..v.len()
                    invariant
                        keys_ascend(v@),
                        part == told_part(*self, id@, v@, before.seen),
                        p@ == seen_with(before.seen, id@, v@, j as int),
                        ui@ == old(ui)@ + outputs(before.lines + gathered(part, j as nat)),
                {
                    let ghost said = ui@;
                    let ghost known = p@;
                    let t: &TestResult = &v[j];
                    let fresh: bool = p.insert(id, t.test_id.as_str());
                    proof {
                        let key = (id@, t.test_id@);
                        if known.contains(key) && !before.seen.contains(key) {
                            let k = choose|k: int| 0 <= k < j && (#[trigger] v@[k]).test_id@ == key.1;
                            assert(v@[k].key_text() == v@[j as int].key_text());
                            crate::text::order::text_lt_asymmetric(
                                v@[k].key_text(),
                                v@[j as int].key_text(),
                            );
                        }
                        assert(fresh == !before.seen.contains(key));
                        assert(p@ =~= seen_with(before.seen, id@, v@, j + 1)) by {
                            assert forall|q: (Seq<char>, Seq<char>)| p@.contains(q) == seen_with(
                                before.seen,
                                id@,
                                v@,
                                j + 1,
                            ).contains(q) by {
                                if q == key {
                                    assert(v@[j as int].test_id@ == q.1);
                                } else if known.contains(q) && !before.seen.contains(q) {
                                    let k = choose|k: int|
                                        0 <= k < j && (#[trigger] v@[k]).test_id@ == q.1;
                                    assert(v@[k].test_id@ == q.1);
                                }
                            }
                        }
                    }
                    if fresh && !(self.only_failures && !t.status.is_failure()) {
                        let line: String = cat5(
                            id,
                            " [",
                            t.status.text(),
                            "] ",
                            t.test_id.as_str(),
                        );
                        ui.output(line.as_str());
                    }
                    assert(ui@ =~= old(ui)@ + outputs(
                        before.lines + gathered(part, (j + 1) as nat),
                    ));
                }
            }
        }
    }

    /// Looks for the first of the runs with results that end the waiting, and says what was found.
    fn look(&self, ids: &Vec<RunId>, store: &Store, ui: &mut Transcript) -> (r: bool)
        ensures
            ({
                let hit = filter_hit(*self, run_names(ids@), store.runs@);
                &&& r == hit is Some
                &&& final(ui)@ == old(ui)@ + outputs(
                    if hit is Some && !self.stream {
                        matched_lines(
                            hit->0,
                            run_of(store.runs@, hit->0).run.results@,
                            self.status_filter->0@,
                        )
                    } else {
                        Seq::empty()
                    },
                )
            }),
    {
        assert(ui@ =~= old(ui)@ + outputs(Seq::empty()));
        let statuses: &Vec<TestStatus> = match &self.status_filter {
            Some(v) => v,
            None => {
                return false;
            },
        };
        let ghost names = run_names(ids@);
        for i in 0..ids.len()
            invariant
                names == run_names(ids@),
                ui@ == old(ui)@,
                old(ui)@ == old(ui)@ + outputs(Seq::empty()),
                self.status_filter == Some(*statuses),
                first_matching(names, 0, store.runs@, statuses@) == first_matching(
                    names,
                    i as int,
                    store.runs@,
                    statuses@,
                ),
        {
            assert(names[i as int] == ids@[i as int]@);
            if let Some(stored) = store.find(ids[i].as_str()) {
                let m: Vec<&TestResult> = find_matched(&stored.run, statuses);
                if m.len() > 0 {
                    if !self.stream {
                        let lines: Vec<String> = render_matched(
                            ids[i].as_str(),
                            &stored.run,
                            &m,
                            Ghost(statuses@),
                        );
                        ui.output_all(&lines);
                    }
                    return true;
                }
            }
        }
        false
    }

    /// Looks at the runs after some time. Gives the exit code, or nothing where the waiting goes
    /// on.
    pub fn poll(
        &self,
        p: &mut WaitProgress,
        store: &Store,
        elapsed: Duration,
        ui: &mut Transcript,
    ) -> (r: Option<i32>)
        ensures
            ({
                let s = wait_step(*self, store.runs@, old(p)@, elapsed@);
                &&& r == s.exit
                &&& final(p)@ == s.seen
                &&& final(ui)@ == old(ui)@ + s.lines
            }),
    {
        let running: Vec<RunId> = store.get_running_run_ids();
        let ghost live = running_names(store.runs@);
        assert(live.len() == running@.len());
        let mut ids: Vec<RunId> = Vec::new();
        let going_on: bool;
        match &self.run_id {
            Some(id) => {
                ids.push(RunId::new(id.as_str()));
                assert(run_names(ids@) =~= watched(*self, store.runs@));
                going_on = names_run(&running, id.as_str());
            },
            None => {
                for i in 0..running.len()
                    invariant
                        run_names(ids@) =~= run_names(running@).take(i as int),
                {
                    ids.push(running[i].copy());
                }
                assert(run_names(ids@) =~= watched(*self, store.runs@));
                going_on = running.len() > 0;
            },
        }
        let ghost t = if self.stream {
            told(*self, run_names(ids@), ids@.len(), store.runs@, p@)
        } else {
            Told { lines: Seq::empty(), seen: p@ }
        };
        if self.stream {
            self.tell(p, &ids, store, ui);
        }
        assert(run_names(ids@).len() == ids@.len());
        assert(ui@ =~= old(ui)@ + outputs(t.lines));
        if !going_on {
            if !self.stream {
                ui.output("No matching runs are in progress");
                assert(ui@ =~= old(ui)@ + outputs(
                    t.lines + seq!["No matching runs are in progress"@],
                ));
            } else {
                assert(t.lines + Seq::empty() =~= t.lines);
            }
            return Some(0);
        }
        if self.look(&ids, store, ui) {
            proof {
                let hit = filter_hit(*self, run_names(ids@), store.runs@);
                let more = if self.stream {
                    Seq::empty()
                } else {
                    matched_lines(
                        hit->0,
                        run_of(store.runs@, hit->0).run.results@,
                        self.status_filter->0@,
                    )
                };
                assert(ui@ =~= old(ui)@ + outputs(t.lines + more));
            }
            return Some(0);
        }
        assert(ui@ =~= old(ui)@ + outputs(t.lines));
        if elapsed.as_nanos() >= self.timeout.as_nanos() {
            let names: String = join_runs(&running);
            let still: &str = if names.as_str().is_empty() {
                "(none)"
            } else {
                names.as_str()
            };
            let secs: u128 = self.timeout.as_nanos() / 1_000_000_000;
            let line: String = cat4(
                "Timed out after ",
                decimal_text(secs).as_str(),
                "s; still running: ",
                still,
            );
            ui.error(line.as_str());
            assert(ui@ =~= old(ui)@ + (outputs(t.lines) + seq![Line::Error(line@)]));
            return Some(EXIT_TIMEOUT);
        }
        None
    }
}

/// The names of runs, with commas between them.
fn join_runs(runs: &Vec<RunId>) -> (s: String)
    ensures
        s@ == joined(run_names(runs@), ", "@),
{
    let mut names: Vec<String> = Vec::new();
    for i in 0..runs.len()
        invariant
            texts(names@) =~= run_names(runs@).take(i as int),
    {
        names.push(runs[i].as_str().to_owned());
    }
    assert(texts(names@) =~= run_names(runs@));
    join(&names, ", ")
}

/// What has been told once is not told again: a result that has been seen gives no line.
pub proof fn results_are_told_once(
    c: WaitCommand,
    run: Seq<char>,
    s: Seq<TestResult>,
    seen: Set<(Seq<char>, Seq<char>)>,
)
    ensures
        gathered(
            told_part(c, run, s, seen_with(seen, run, s, s.len() as int)),
            s.len(),
        ) == Seq::<Seq<char>>::empty(),
{
    nothing_told(c, run, s, seen, s.len());
}

/// The first results that have been seen give no line.
proof fn nothing_told(
    c: WaitCommand,
    run: Seq<char>,
    s: Seq<TestResult>,
    seen: Set<(Seq<char>, Seq<char>)>,
    n: nat,
)
    requires
        n <= s.len(),
    ensures
        gathered(told_part(c, run, s, seen_with(seen, run, s, s.len() as int)), n) == Seq::<
            Seq<char>,
        >::empty(),
    decreases n,
{
    if n > 0 {
        nothing_told(c, run, s, seen, (n - 1) as nat);
        let all = seen_with(seen, run, s, s.len() as int);
        assert(s[n - 1].test_id@ == (run, s[n - 1].test_id@).1);
        assert(all.contains((run, s[n - 1].test_id@)));
        assert(gathered(told_part(c, run, s, all), n) =~= Seq::<Seq<char>>::empty());
    }
}

/// Waiting ends with zero where no run that is waited for is going on, or where one of the runs
/// that are looked at has a result of a kind that is asked for. Otherwise it ends with one once the
/// time is up, and goes on until then.
pub proof fn waiting_ends_when_it_should(
    c: WaitCommand,
    runs: Seq<StoredRun>,
    seen: Set<(Seq<char>, Seq<char>)>,
    elapsed: nat,
)
    requires
        forall|a: int, b: int|
            0 <= a < b < runs.len() ==> (#[trigger] runs[a]).run.id@ != (#[trigger] runs[b]).run.id@,
    ensures
        ({
            let step = wait_step(c, runs, seen, elapsed);
            let going_on = exists|i: int|
                0 <= i < runs.len() && (#[trigger] runs[i]).in_progress && (c.run_id matches Some(s)
                    ==> runs[i].run.id@ == s@);
            let found = c.status_filter is Some && exists|i: int, k: int|
                #![trigger runs[i].run.results@[k]]
                0 <= i < runs.len() && 0 <= k < runs[i].run.results@.len() && (match c.run_id {
                    Some(s) => runs[i].run.id@ == s@,
                    None => runs[i].in_progress,
                }) && c.status_filter->0@.contains(runs[i].run.results@[k].status);
            step.exit == (if !going_on || found {
                Some(0i32)
            } else if elapsed >= c.timeout@ {
                Some(1i32)
            } else {
                None
            })
        }),
{
    let ids = watched(c, runs);
    let running = running_names(runs);
    let going_on = exists|i: int|
        0 <= i < runs.len() && (#[trigger] runs[i]).in_progress && (c.run_id matches Some(s)
            ==> runs[i].run.id@ == s@);
    match c.run_id {
        Some(s) => {
            running_names_are(runs, s@);
        },
        None => {
            if running.len() > 0 {
                running_names_are(runs, running[0]);
                assert(has_text(running, running[0]));
            }
            if going_on {
                let i = choose|i: int| 0 <= i < runs.len() && (#[trigger] runs[i]).in_progress;
                running_names_are(runs, runs[i].run.id@);
            }
        },
    }
    assert(is_going_on(c, runs) == going_on);
    if let Some(v) = c.status_filter {
        first_matching_is(ids, 0, runs, v@);
        if first_matching(ids, 0, runs, v@) is Some {
            let n = choose|n: int|
                0 <= n < ids.len() && has_run(runs, #[trigger] ids[n]) && matched(
                    run_of(runs, ids[n]).run.results@,
                    v@,
                ).len() > 0;
            let i = crate::store::run_index(runs, ids[n]);
            crate::store::run_index_bounds(runs, ids[n]);
            matched_is(runs[i].run.results@, v@);
            let k = choose|k: int|
                0 <= k < runs[i].run.results@.len() && v@.contains(
                    (#[trigger] runs[i].run.results@[k]).status,
                );
            if c.run_id is None {
                running_names_are(runs, ids[n]);
                assert(has_text(running, ids[n]));
                let j = choose|j: int|
                    0 <= j < runs.len() && (#[trigger] runs[j]).in_progress && runs[j].run.id@
                        == ids[n];
                assert(runs[j].run.id@ == runs[i].run.id@);
                assert(i == j);
            }
            assert(v@.contains(runs[i].run.results@[k].status));
        }
        if exists|i: int, k: int|
            #![trigger runs[i].run.results@[k]]
            0 <= i < runs.len() && 0 <= k < runs[i].run.results@.len() && (match c.run_id {
                Some(s) => runs[i].run.id@ == s@,
                None => runs[i].in_progress,
            }) && v@.contains(runs[i].run.results@[k].status) {
            let (i, k) = choose|i: int, k: int|
                #![trigger runs[i].run.results@[k]]
                0 <= i < runs.len() && 0 <= k < runs[i].run.results@.len() && (match c.run_id {
                    Some(s) => runs[i].run.id@ == s@,
                    None => runs[i].in_progress,
                }) && v@.contains(runs[i].run.results@[k].status);
            let id = runs[i].run.id@;
            crate::store::run_index_is(runs, id, i);
            matched_is(runs[i].run.results@, v@);
            if c.run_id is None {
                running_names_are(runs, id);
                let n = choose|n: int| 0 <= n < ids.len() && #[trigger] ids[n] == id;
                assert(has_run(runs, ids[n]));
            } else {
                assert(has_run(runs, ids[0]));
            }
        }
    }
}

/// A run is found exactly if one has matching results.
proof fn first_matching_is(
    ids: Seq<Seq<char>>,
    from: int,
    runs: Seq<StoredRun>,
    statuses: Seq<TestStatus>,
)
    requires
        0 <= from <= ids.len(),
    ensures
        first_matching(ids, from, runs, statuses) is Some <==> exists|n: int|
            from <= n < ids.len() && has_run(runs, #[trigger] ids[n]) && matched(
                run_of(runs, ids[n]).run.results@,
                statuses,
            ).len() > 0,
    decreases ids.len() - from,
{
    if from < ids.len() {
        first_matching_is(ids, from + 1, runs, statuses);
    }
}

/// A result matches exactly if it has one of the statuses.
proof fn matched_is(s: Seq<TestResult>, statuses: Seq<TestStatus>)
    ensures
        matched(s, statuses).len() > 0 <==> exists|k: int|
            0 <= k < s.len() && statuses.contains((#[trigger] s[k]).status),
    decreases s.len(),
{
    if s.len() > 0 {
        let init = s.drop_last();
        matched_is(init, statuses);
        if exists|k: int| 0 <= k < init.len() && statuses.contains((#[trigger] init[k]).status) {
            let k = choose|k: int|
                0 <= k < init.len() && statuses.contains((#[trigger] init[k]).status);
            assert(statuses.contains(s[k].status));
        }
        if exists|k: int| 0 <= k < s.len() && statuses.contains((#[trigger] s[k]).status) {
            let k = choose|k: int| 0 <= k < s.len() && statuses.contains((#[trigger] s[k]).status);
            if k < init.len() {
                assert(statuses.contains(init[k].status));
            }
        }
        if statuses.contains(s.last().status) {
            assert(statuses.contains(s[s.len() - 1].status));
        }
    }
}

/// What has not been seen is told, once and as it is: a result of a run that is told gives a line
/// with the run, the status and the test, unless it has been seen or only failures are asked for
/// and it is none.
pub proof fn new_results_are_told(
    c: WaitCommand,
    run: Seq<char>,
    s: Seq<TestResult>,
    seen: Set<(Seq<char>, Seq<char>)>,
    i: int,
)
    requires
        0 <= i < s.len(),
    ensures
        ({
            let lines = gathered(told_part(c, run, s, seen), s.len());
            &&& !seen.contains((run, s[i].test_id@)) && (c.only_failures ==> is_failure(
                s[i].status,
            )) ==> lines.contains(run + " ["@ + status_text(s[i].status) + "] "@ + s[i].test_id@)
            &&& seen_with(seen, run, s, s.len() as int).contains((run, s[i].test_id@))
            &&& lines.len() <= s.len()
        }),
{
    let part = told_part(c, run, s, seen);
    if !seen.contains((run, s[i].test_id@)) && (c.only_failures ==> is_failure(s[i].status)) {
        assert(part(i)[0] == run + " ["@ + status_text(s[i].status) + "] "@ + s[i].test_id@);
        let x = crate::gather::gathered_holds(part, s.len(), i, 0);
    }
    assert(s[i].test_id@ == (run, s[i].test_id@).1);
    at_most_one_line_each(c, run, s, seen, s.len());
}

proof fn at_most_one_line_each(
    c: WaitCommand,
    run: Seq<char>,
    s: Seq<TestResult>,
    seen: Set<(Seq<char>, Seq<char>)>,
    n: nat,
)
    ensures
        gathered(told_part(c, run, s, seen), n).len() <= n,
    decreases n,
{
    if n > 0 {
        at_most_one_line_each(c, run, s, seen, (n - 1) as nat);
    }
}

impl Command for WaitCommand {
    fn name(&self) -> (r: &str)
        ensures
            r@ == "wait"@,
    {
        "wait"
    }

    fn help(&self) -> (r: &str)
        ensures
            r@ == "Wait for in-progress test runs to complete"@,
    {
        "Wait for in-progress test runs to complete"
    }
}

} // verus!
