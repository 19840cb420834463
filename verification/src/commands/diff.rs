//! Comparing two runs.

use vstd::prelude::*;
use vstd::string::*;

use crate::collection::{entry_of, has_key, keys_ascend};
use crate::commands::Command;
use crate::error::{Error, Failure, Result};
use crate::gather::{append_texts, gathered};
use crate::repository::{is_failure, status_text, RunId, TestId, TestResult, TestRun, TestStatus};
use crate::sort::ascending_is_unique;
use crate::store::{has_run, resolve_run_id, resolved_run, result_names, run_of, stored_names, Store, StoredRun};
use crate::text::compose::{cat2, cat3, cat4, cat5, texts};
use crate::text::number::{count_text, decimal};
use crate::text::order::text_lt;
use crate::text::scan::has_prefix;
use crate::ui::{outputs, Transcript};

verus! {

broadcast use crate::text::compose::texts_push;

/// Command that compares two runs.
#[derive(Debug)]
pub struct DiffCommand {
    /// Where the project is.
    pub base_path: Option<String>,
    /// The earlier run.
    pub run1: Option<String>,
    /// The later run.
    pub run2: Option<String>,
}

/// How the result of a test changed.
#[derive(Clone, Copy, Debug, PartialEq, Eq, Structural)]
pub enum ChangeKind {
    /// It did not.
    Same,
    /// The test passed and fails now.
    NewFailure,
    /// The test failed and passes now.
    NewPass,
    /// It changed in another way.
    StatusChanged,
    /// There was no result.
    Added,
    /// There is no result any more.
    Removed,
}

/// The result of a test before and after.
#[derive(Clone, Copy, Debug, PartialEq, Eq, Structural)]
pub struct Change {
    /// The result before, where there is one.
    pub old: Option<TestStatus>,
    /// The result after, where there is one.
    pub new: Option<TestStatus>,
}

/// How a result changed.
pub open spec fn kind_of(c: Change) -> ChangeKind {
    match (c.old, c.new) {
        (Some(a), Some(b)) => if a == b {
            ChangeKind::Same
        } else if is_failure(b) && !is_failure(a) {
            ChangeKind::NewFailure
        } else if !is_failure(b) && is_failure(a) {
            ChangeKind::NewPass
        } else {
            ChangeKind::StatusChanged
        },
        (None, Some(b)) => ChangeKind::Added,
        (Some(a), None) => ChangeKind::Removed,
        (None, None) => ChangeKind::Same,
    }
}

/// The result of a test in a run.
pub open spec fn status_in(s: Seq<TestResult>, t: Seq<char>) -> Option<TestStatus> {
    if has_key(s, t) {
        Some(entry_of(s, t).status)
    } else {
        None
    }
}

/// The result of a test in two runs.
pub open spec fn change_between(s1: Seq<TestResult>, s2: Seq<TestResult>, t: Seq<char>) -> Change {
    Change { old: status_in(s1, t), new: status_in(s2, t) }
}

/// The names of those whose results changed in a way.
pub open spec fn of_kind(
    names: Seq<Seq<char>>,
    s1: Seq<TestResult>,
    s2: Seq<TestResult>,
    kind: ChangeKind,
) -> Seq<Seq<char>>
    decreases names.len(),
{
    if names.len() == 0 {
        Seq::empty()
    } else {
        let before = of_kind(names.drop_last(), s1, s2, kind);
        if kind_of(change_between(s1, s2, names.last())) == kind {
            before.push(names.last())
        } else {
            before
        }
    }
}

/// A test with its results.
#[derive(Debug)]
pub struct DiffEntry {
    /// The test.
    pub test_id: TestId,
    /// Its results.
    pub change: Change,
}

/// The names of tests.
pub open spec fn entry_names(v: Seq<DiffEntry>) -> Seq<Seq<char>> {
    Seq::new(v.len(), |i: int| v[i].test_id@)
}

/// Whether each test has its results.
pub open spec fn changes_match(v: Seq<DiffEntry>, s1: Seq<TestResult>, s2: Seq<TestResult>) -> bool {
    forall|i: int|
        0 <= i < v.len() ==> (#[trigger] v[i]).change == change_between(s1, s2, v[i].test_id@)
}

/// What changed between two runs, each list in the order of the tests' names.
#[derive(Debug)]
pub struct RunDiff {
    /// Tests that passed and fail now.
    pub new_failures: Vec<DiffEntry>,
    /// Tests that failed and pass now.
    pub new_passes: Vec<DiffEntry>,
    /// Tests without a result before.
    pub added: Vec<DiffEntry>,
    /// Tests without a result now.
    pub removed: Vec<DiffEntry>,
    /// Tests with other changes.
    pub status_changed: Vec<DiffEntry>,
}

/// Whether `v` lists the tests of a run whose results changed in a way.
pub open spec fn lists_kind(
    v: Seq<DiffEntry>,
    of: Seq<TestResult>,
    s1: Seq<TestResult>,
    s2: Seq<TestResult>,
    kind: ChangeKind,
) -> bool {
    entry_names(v) == of_kind(result_names(of), s1, s2, kind) && changes_match(v, s1, s2)
}

/// Whether `d` is what changed between two runs.
pub open spec fn is_diff(d: RunDiff, s1: Seq<TestResult>, s2: Seq<TestResult>) -> bool {
    &&& lists_kind(d.new_failures@, s2, s1, s2, ChangeKind::NewFailure)
    &&& lists_kind(d.new_passes@, s2, s1, s2, ChangeKind::NewPass)
    &&& lists_kind(d.added@, s2, s1, s2, ChangeKind::Added)
    &&& lists_kind(d.removed@, s1, s1, s2, ChangeKind::Removed)
    &&& lists_kind(d.status_changed@, s2, s1, s2, ChangeKind::StatusChanged)
}

/// How a result changed.
fn find_kind(c: Change) -> (r: ChangeKind)
    ensures
        r == kind_of(c),
{
    match (c.old, c.new) {
        (Some(a), Some(b)) => if a == b {
            ChangeKind::Same
        } else if b.is_failure() && !a.is_failure() {
            ChangeKind::NewFailure
        } else if !b.is_failure() && a.is_failure() {
            ChangeKind::NewPass
        } else {
            ChangeKind::StatusChanged
        },
        (None, Some(_)) => ChangeKind::Added,
        (Some(_), None) => ChangeKind::Removed,
        (None, None) => ChangeKind::Same,
    }
}

/// The tests of a run whose results changed in a way.
fn list_kind(of: &TestRun, run1: &TestRun, run2: &TestRun, kind: ChangeKind) -> (r: Vec<DiffEntry>)
    ensures
        lists_kind(r@, of.results@, run1.results@, run2.results@, kind),
{
    let v: &Vec<TestResult> = of.results.entries();
    let ghost names = result_names(v@);
    let ghost s1 = run1.results@;
    let ghost s2 = run2.results@;
    let mut r: Vec<DiffEntry> = Vec::new();
    assert(entry_names(r@) =~= of_kind(names.take(0), s1, s2, kind));
    for i in 0..v.len()
        invariant
            v@ == of.results@,
            names == result_names(v@),
            s1 == run1.results@,
            s2 == run2.results@,
            entry_names(r@) == of_kind(names.take(i as int), s1, s2, kind),
            changes_match(r@, s1, s2),
    {
        let ghost before = r@;
        assert(names.take(i + 1).drop_last() =~= names.take(i as int));
        let id: &str = v[i].test_id.as_str();
        let old: Option<TestStatus> = match run1.results.find(id) {
            Some(x) => Some(x.status),
            None => None,
        };
        let new: Option<TestStatus> = match run2.results.find(id) {
            Some(x) => Some(x.status),
            None => None,
        };
        let change: Change = Change { old, new };
        if find_kind(change) == kind {
            r.push(DiffEntry { test_id: v[i].test_id.copy(), change });
            assert(entry_names(r@) =~= entry_names(before).push(names[i as int]));
        }
    }
    assert(names.take(v@.len() as int) =~= names);
    r
}

/// What changed between two runs.
pub fn compute_diff(run1: &TestRun, run2: &TestRun) -> (d: RunDiff)
    ensures
        is_diff(d, run1.results@, run2.results@),
{
    RunDiff {
        new_failures: list_kind(run2, run1, run2, ChangeKind::NewFailure),
        new_passes: list_kind(run2, run1, run2, ChangeKind::NewPass),
        added: list_kind(run2, run1, run2, ChangeKind::Added),
        removed: list_kind(run1, run1, run2, ChangeKind::Removed),
        status_changed: list_kind(run2, run1, run2, ChangeKind::StatusChanged),
    }
}

/// The name of a result, where there is one.
pub open spec fn optional_status(s: Option<TestStatus>) -> Seq<char> {
    match s {
        Some(x) => status_text(x),
        None => Seq::empty(),
    }
}

/// The line of a test.
pub open spec fn change_line(t: Seq<char>, c: Change) -> Seq<char> {
    "  "@ + t + (match kind_of(c) {
        ChangeKind::NewPass => Seq::empty(),
        ChangeKind::StatusChanged => " ("@ + optional_status(c.old) + " → "@ + optional_status(c.new)
            + ")"@,
        ChangeKind::Removed => " ("@ + optional_status(c.old) + ")"@,
        _ => " ("@ + optional_status(c.new) + ")"@,
    })
}

/// The line of the test at a position.
pub open spec fn change_part(names: Seq<Seq<char>>, s1: Seq<TestResult>, s2: Seq<TestResult>) -> spec_fn(
    int,
) -> Seq<Seq<char>> {
    |i: int| seq![change_line(names[i], change_between(s1, s2, names[i]))]
}

/// The lines of tests under a title.
pub open spec fn section_lines(
    title: Seq<char>,
    of: Seq<TestResult>,
    s1: Seq<TestResult>,
    s2: Seq<TestResult>,
    kind: ChangeKind,
) -> Seq<Seq<char>> {
    let names = of_kind(result_names(of), s1, s2, kind);
    if names.len() == 0 {
        Seq::empty()
    } else {
        seq!["\n"@ + title + " ("@ + decimal(names.len()) + "):"@] + gathered(
            change_part(names, s1, s2),
            names.len(),
        )
    }
}

/// The lines of what changed between two runs.
pub open spec fn diff_lines(s1: Seq<TestResult>, s2: Seq<TestResult>) -> Seq<Seq<char>> {
    section_lines("New failures"@, s2, s1, s2, ChangeKind::NewFailure) + section_lines(
        "New passes"@,
        s2,
        s1,
        s2,
        ChangeKind::NewPass,
    ) + section_lines("Status changed"@, s2, s1, s2, ChangeKind::StatusChanged) + section_lines(
        "Added tests"@,
        s2,
        s1,
        s2,
        ChangeKind::Added,
    ) + section_lines("Removed tests"@, s1, s1, s2, ChangeKind::Removed)
}

/// Which runs are compared.
pub open spec fn compared(c: DiffCommand, names: Seq<Seq<char>>) -> core::result::Result<
    (Seq<char>, Seq<char>),
    Failure,
> {
    match c.run1 {
        Some(a) => match resolved_run(names, Some(a@)) {
            Err(f) => Err(f),
            Ok(x) => match resolved_run(
                names,
                match c.run2 {
                    Some(b) => Some(b@),
                    None => None,
                },
            ) {
                Err(f) => Err(f),
                Ok(y) => Ok((x, y)),
            },
        },
        None => if names.len() < 2 {
            Err(Failure::Other("Need at least 2 test runs to diff"@))
        } else {
            Ok((names[names.len() - 2], names[names.len() - 1]))
        },
    }
}

/// The runs that are compared, where they have been recorded.
pub open spec fn compared_runs(c: DiffCommand, runs: Seq<StoredRun>) -> core::result::Result<
    (Seq<char>, Seq<char>),
    Failure,
> {
    match compared(c, stored_names(runs)) {
        Err(f) => Err(f),
        Ok((a, b)) => if !has_run(runs, a) {
            Err(Failure::TestRunNotFound(a))
        } else if !has_run(runs, b) {
            Err(Failure::TestRunNotFound(b))
        } else {
            Ok((a, b))
        },
    }
}

/// What is said of two runs.
pub open spec fn comparison(a: Seq<char>, b: Seq<char>, s1: Seq<TestResult>, s2: Seq<TestResult>) -> Seq<
    Seq<char>,
> {
    let lines = diff_lines(s1, s2);
    seq!["Comparing run "@ + a + " → "@ + b] + (if lines.len() == 0 {
        seq!["No changes."@]
    } else {
        lines
    })
}

/// The exit code of a comparison, and what is said.
pub open spec fn diff_outcome(c: DiffCommand, runs: Seq<StoredRun>) -> core::result::Result<
    (i32, Seq<Seq<char>>),
    Failure,
> {
    match compared_runs(c, runs) {
        Err(f) => Err(f),
        Ok((a, b)) => {
            let s1 = run_of(runs, a).run.results@;
            let s2 = run_of(runs, b).run.results@;
            Ok(
                (
                    if of_kind(result_names(s2), s1, s2, ChangeKind::NewFailure).len() == 0 {
                        0i32
                    } else {
                        1
                    },
                    comparison(a, b, s1, s2),
                ),
            )
        },
    }
}

/// The name of a result, where there is one.
fn render_status(s: Option<TestStatus>) -> (r: String)
    ensures
        r@ == optional_status(s),
{
    match s {
        Some(x) => x.text().to_owned(),
        None => String::new(),
    }
}

/// The line of a test.
fn render_change(e: &DiffEntry) -> (s: String)
    ensures
        s@ == change_line(e.test_id@, e.change),
{
    let mut s: String = cat2("  ", e.test_id.as_str());
    let tail: String = match find_kind(e.change) {
        ChangeKind::NewPass => String::new(),
        ChangeKind::StatusChanged => cat5(
            " (",
            render_status(e.change.old).as_str(),
            " → ",
            render_status(e.change.new).as_str(),
            ")",
        ),
        ChangeKind::Removed => cat3(" (", render_status(e.change.old).as_str(), ")"),
        _ => cat3(" (", render_status(e.change.new).as_str(), ")"),
    };
    s.append(tail.as_str());
    s
}

/// The lines of tests under a title.
fn render_section(
    title: &str,
    v: &Vec<DiffEntry>,
    Ghost(of): Ghost<Seq<TestResult>>,
    Ghost(s1): Ghost<Seq<TestResult>>,
    Ghost(s2): Ghost<Seq<TestResult>>,
    Ghost(kind): Ghost<ChangeKind>,
) -> (r: Vec<String>)
    requires
        lists_kind(v@, of, s1, s2, kind),
    ensures
        texts(r@) == section_lines(title@, of, s1, s2, kind),
{
    let ghost names = entry_names(v@);
    let mut r: Vec<String> = Vec::new();
    assert(names.len() == v@.len());
    if v.len() > 0 {
        r.push(cat5("\n", title, " (", count_text(v.len()).as_str(), "):"));
        let ghost head = texts(r@);
        for i in 0..v.len()
            invariant
                names == entry_names(v@),
                changes_match(v@, s1, s2),
                texts(r@) =~= head + gathered(change_part(names, s1, s2), i as nat),
        {
            r.push(render_change(&v[i]));
        }
    }
    assert(texts(r@) =~= section_lines(title@, of, s1, s2, kind));
    r
}

impl DiffCommand {
    /// A command that compares two runs: the last two where none are given, the given one with
    /// the latest where one is given.
    pub fn new(base_path: Option<String>, run1: Option<String>, run2: Option<String>) -> (r: Self)
        ensures
            r == (DiffCommand { base_path, run1, run2 }),
    {
        DiffCommand { base_path, run1, run2 }
    }

    /// Which runs are compared.
    fn resolve_runs(&self, store: &Store) -> (r: Result<(RunId, RunId)>)
        requires
            self.run1 is None ==> self.run2 is None,
        ensures
            match compared(*self, stored_names(store.runs@)) {
                Ok((a, b)) => r matches Ok((x, y)) && x@ == a && y@ == b,
                Err(f) => r matches Err(e) && e@ == f,
            },
    {
        match &self.run1 {
            Some(a) => {
                let second: Option<&str> = match &self.run2 {
                    Some(b) => Some(b.as_str()),
                    None => None,
                };
                match resolve_run_id(store, Some(a.as_str())) {
                    Err(e) => Err(e),
                    Ok(x) => match resolve_run_id(store, second) {
                        Err(e) => Err(e),
                        Ok(y) => Ok((x, y)),
                    },
                }
            },
            None => {
                let n: usize = store.runs.len();
                if n < 2 {
                    Err(Error::Other("Need at least 2 test runs to diff".to_owned()))
                } else {
                    Ok((store.runs[n - 2].run.id.copy(), store.runs[n - 1].run.id.copy()))
                }
            },
        }
    }

    /// Compares the runs. The exit code tells whether a test that passed fails now.
    pub fn execute(&self, store: &Store, ui: &mut Transcript) -> (r: Result<i32>)
        requires
            self.run1 is None ==> self.run2 is None,
        ensures
            match diff_outcome(*self, store.runs@) {
                Err(f) => r matches Err(e) && e@ == f && final(ui)@ == old(ui)@,
                Ok((code, lines)) => r == Ok::<i32, Error>(code) && final(ui)@ == old(ui)@
                    + outputs(lines),
            },
    {
        let (id1, id2): (RunId, RunId) = match self.resolve_runs(store) {
            Ok(ids) => ids,
            Err(e) => {
                return Err(e);
            },
        };
        let run1: &TestRun = match store.get_test_run(&id1) {
            Ok(t) => t,
            Err(e) => {
                return Err(e);
            },
        };
        let run2: &TestRun = match store.get_test_run(&id2) {
            Ok(t) => t,
            Err(e) => {
                return Err(e);
            },
        };
        let ghost s1 = run1.results@;
        let ghost s2 = run2.results@;
        let d: RunDiff = compute_diff(run1, run2);
        let mut lines: Vec<String> = render_section(
            "New failures",
            &d.new_failures,
            Ghost(s2),
            Ghost(s1),
            Ghost(s2),
            Ghost(ChangeKind::NewFailure),
        );
        append_texts(
            &mut lines,
            render_section(
                "New passes",
                &d.new_passes,
                Ghost(s2),
                Ghost(s1),
                Ghost(s2),
                Ghost(ChangeKind::NewPass),
            ),
        );
        append_texts(
            &mut lines,
            render_section(
                "Status changed",
                &d.status_changed,
                Ghost(s2),
                Ghost(s1),
                Ghost(s2),
                Ghost(ChangeKind::StatusChanged),
            ),
        );
        append_texts(
            &mut lines,
            render_section(
                "Added tests",
                &d.added,
                Ghost(s2),
                Ghost(s1),
                Ghost(s2),
                Ghost(ChangeKind::Added),
            ),
        );
        append_texts(
            &mut lines,
            render_section(
                "Removed tests",
                &d.removed,
                Ghost(s1),
                Ghost(s1),
                Ghost(s2),
                Ghost(ChangeKind::Removed),
            ),
        );
        assert(texts(lines@) =~= diff_lines(s1, s2));
        assert(texts(lines@).len() == lines@.len());
        let mut out: Vec<String> = Vec::new();
        out.push(cat4("Comparing run ", id1.as_str(), " → ", id2.as_str()));
        if lines.len() == 0 {
            out.push("No changes.".to_owned());
        } else {
            append_texts(&mut out, lines);
        }
        assert(texts(out@) =~= comparison(id1@, id2@, s1, s2));
        ui.output_all(&out);
        assert(entry_names(d.new_failures@).len() == d.new_failures@.len());
        if d.new_failures.len() == 0 {
            Ok(0)
        } else {
            Ok(1)
        }
    }
}

/// The names of a kind are the names whose results changed in that way.
proof fn of_kind_is(
    names: Seq<Seq<char>>,
    s1: Seq<TestResult>,
    s2: Seq<TestResult>,
    kind: ChangeKind,
    t: Seq<char>,
)
    ensures
        of_kind(names, s1, s2, kind).contains(t) <==> names.contains(t) && kind_of(
            change_between(s1, s2, t),
        ) == kind,
    decreases names.len(),
{
    let all = of_kind(names, s1, s2, kind);
    if names.len() > 0 {
        let init = names.drop_last();
        let before = of_kind(init, s1, s2, kind);
        of_kind_is(init, s1, s2, kind, t);
        if names.contains(t) {
            let i = choose|i: int| 0 <= i < names.len() && names[i] == t;
            if i < init.len() {
                assert(init[i] == t);
            }
        }
        if init.contains(t) {
            let i = choose|i: int| 0 <= i < init.len() && init[i] == t;
            assert(names[i] == t);
        }
        assert(names[names.len() - 1] == names.last());
        if all.contains(t) {
            let i = choose|i: int| 0 <= i < all.len() && all[i] == t;
            if i < before.len() {
                assert(before[i] == t);
            }
        }
        if before.contains(t) {
            let i = choose|i: int| 0 <= i < before.len() && before[i] == t;
            assert(all[i] == t);
        }
        if kind_of(change_between(s1, s2, names.last())) == kind {
            assert(all[all.len() - 1] == names.last());
        }
    }
}

/// A test is among the results exactly if its name is.
proof fn names_are_keys(s: Seq<TestResult>, t: Seq<char>)
    ensures
        result_names(s).contains(t) <==> has_key(s, t),
{
    let names = result_names(s);
    if names.contains(t) {
        let i = choose|i: int| 0 <= i < names.len() && names[i] == t;
        assert(crate::collection::Keyed::key_text(&s[i]) == t);
    }
    if has_key(s, t) {
        let i = choose|i: int|
            0 <= i < s.len() && crate::collection::Keyed::key_text(#[trigger] &s[i]) == t;
        assert(names[i] == t);
    }
}

/// A test is listed as changed in a way exactly if its results changed in that way: every test
/// whose results differ is in one list, and no test is in two.
pub proof fn changes_are_listed_once(
    s1: Seq<TestResult>,
    s2: Seq<TestResult>,
    kind: ChangeKind,
    t: Seq<char>,
)
    requires
        kind != ChangeKind::Same,
    ensures
        of_kind(
            result_names(
                if kind == ChangeKind::Removed {
                    s1
                } else {
                    s2
                },
            ),
            s1,
            s2,
            kind,
        ).contains(t) <==> kind_of(change_between(s1, s2, t)) == kind,
{
    let of = if kind == ChangeKind::Removed {
        s1
    } else {
        s2
    };
    of_kind_is(result_names(of), s1, s2, kind, t);
    names_are_keys(of, t);
}

/// Comparing a run with itself shows no changes.
pub proof fn no_changes_within_a_run(s: Seq<TestResult>)
    ensures
        diff_lines(s, s) == Seq::<Seq<char>>::empty(),
{
    let names = result_names(s);
    none_of_kind(names, s, ChangeKind::NewFailure);
    none_of_kind(names, s, ChangeKind::NewPass);
    none_of_kind(names, s, ChangeKind::StatusChanged);
    none_of_kind(names, s, ChangeKind::Added);
    none_of_kind(names, s, ChangeKind::Removed);
    assert(diff_lines(s, s) =~= Seq::<Seq<char>>::empty());
}

/// No result differs from itself.
proof fn none_of_kind(names: Seq<Seq<char>>, s: Seq<TestResult>, kind: ChangeKind)
    requires
        kind != ChangeKind::Same,
    ensures
        of_kind(names, s, s, kind).len() == 0,
    decreases names.len(),
{
    if names.len() > 0 {
        none_of_kind(names.drop_last(), s, kind);
    }
}

/// Where no run is named, the last two are compared: the later one is the latest run, and the
/// earlier one was recorded before it with no run in between. With fewer runs that is an error.
pub proof fn last_two_runs_are_compared(c: DiffCommand, runs: Seq<StoredRun>)
    requires
        c.run1 is None,
        c.run2 is None,
    ensures
        runs.len() < 2 <==> compared_runs(c, runs) is Err,
        runs.len() >= 2 ==> exists|i: int, j: int|
            0 <= i < j < runs.len() && compared_runs(c, runs) == Ok::<
                (Seq<char>, Seq<char>),
                Failure,
            >(((#[trigger] runs[i]).run.id@, (#[trigger] runs[j]).run.id@)) && j - i == 1 && runs.len() - j == 1,
{
    if runs.len() >= 2 {
        let i = runs.len() - 2;
        let j = runs.len() - 1;
        stored_is_found(runs, i);
        stored_is_found(runs, j);
        assert(compared_runs(c, runs) == Ok::<(Seq<char>, Seq<char>), Failure>(
            (runs[i].run.id@, runs[j].run.id@),
        ));
    }
}

/// Where no run is named, the exit code tells whether a test that passed in the run before the
/// latest one fails in the latest one, and what is said compares these two runs.
pub proof fn last_two_runs_tell_what_broke(c: DiffCommand, runs: Seq<StoredRun>)
    requires
        c.run1 is None,
        c.run2 is None,
        runs.len() >= 2,
        forall|a: int, b: int|
            0 <= a < b < runs.len() ==> (#[trigger] runs[a]).run.id@ != (#[trigger] runs[b]).run.id@,
    ensures
        diff_outcome(c, runs) is Ok,
        (diff_outcome(c, runs)->Ok_0).0 == 0 || (diff_outcome(c, runs)->Ok_0).0 == 1,
        (diff_outcome(c, runs)->Ok_0).0 == 1 <==> exists|t: Seq<char>|
            #![trigger has_key(runs[runs.len() - 2].run.results@, t)]
            has_key(runs[runs.len() - 2].run.results@, t) && has_key(
                runs[runs.len() - 1].run.results@,
                t,
            ) && !is_failure(entry_of(runs[runs.len() - 2].run.results@, t).status) && is_failure(
                entry_of(runs[runs.len() - 1].run.results@, t).status,
            ),
        (diff_outcome(c, runs)->Ok_0).1 == comparison(
            runs[runs.len() - 2].run.id@,
            runs[runs.len() - 1].run.id@,
            runs[runs.len() - 2].run.results@,
            runs[runs.len() - 1].run.results@,
        ),
        (diff_outcome(c, runs)->Ok_0).1[0] == "Comparing run "@ + runs[runs.len() - 2].run.id@
            + " → "@ + runs[runs.len() - 1].run.id@,
{
    let n = runs.len();
    let a = runs[n - 2].run.id@;
    let b = runs[n - 1].run.id@;
    last_two_runs_are_compared(c, runs);
    stored_is_found(runs, n - 2);
    stored_is_found(runs, n - 1);
    crate::store::run_index_is(runs, a, n - 2);
    crate::store::run_index_is(runs, b, n - 1);
    let s1 = runs[n - 2].run.results@;
    let s2 = runs[n - 1].run.results@;
    assert(compared_runs(c, runs) == Ok::<(Seq<char>, Seq<char>), Failure>((a, b)));
    new_failures_are_tests_that_passed(s1, s2);
    let lines = comparison(a, b, s1, s2);
    let code = (diff_outcome(c, runs)->Ok_0).0;
    assert(diff_outcome(c, runs) == Ok::<(i32, Seq<Seq<char>>), Failure>((code, lines)));
    assert(lines[0] == "Comparing run "@ + a + " → "@ + b);
}

/// A recorded run is found by its name.
proof fn stored_is_found(runs: Seq<StoredRun>, i: int)
    requires
        0 <= i < runs.len(),
    ensures
        has_run(runs, runs[i].run.id@),
        stored_names(runs)[i] == runs[i].run.id@,
{
    crate::store::run_index_bounds(runs, runs[i].run.id@);
}

/// A run that is named is the one that is compared: the first named run is the earlier one. The
/// second named run is the later one, or the latest run where only one is named. A name of no
/// recorded run is an error.
pub proof fn named_runs_are_compared(c: DiffCommand, runs: Seq<StoredRun>)
    requires
        c.run1 is Some,
        c.run1->0@.len() == 0 || c.run1->0@[0] != '-',
        c.run2 matches Some(b) ==> b@.len() == 0 || b@[0] != '-',
        runs.len() > 0,
    ensures
        match compared_runs(c, runs) {
            Ok((a, b)) => {
                &&& a == c.run1->0@
                &&& b == (match c.run2 {
                    Some(x) => x@,
                    None => runs.last().run.id@,
                })
                &&& exists|i: int| 0 <= i < runs.len() && (#[trigger] runs[i]).run.id@ == a
                &&& exists|i: int| 0 <= i < runs.len() && (#[trigger] runs[i]).run.id@ == b
            },
            Err(f) => {
                &&& f matches Failure::TestRunNotFound(s)
                &&& s == c.run1->0@ || (c.run2 matches Some(x) && s == x@)
                &&& forall|i: int| 0 <= i < runs.len() ==> (#[trigger] runs[i]).run.id@ != s
            },
        },
{
    reveal_strlit("-");
    let names = stored_names(runs);
    let a = c.run1->0@;
    assert(!has_prefix(a, "-"@)) by {
        if has_prefix(a, "-"@) {
            assert(a.take(1)[0] == "-"@[0]);
        }
    }
    if let Some(x) = c.run2 {
        assert(!has_prefix(x@, "-"@)) by {
            if has_prefix(x@, "-"@) {
                assert(x@.take(1)[0] == "-"@[0]);
            }
        }
    }
    let b = match c.run2 {
        Some(x) => x@,
        None => runs.last().run.id@,
    };
    assert(compared(c, names) == Ok::<(Seq<char>, Seq<char>), Failure>((a, b)));
    crate::store::run_index_bounds(runs, a);
    crate::store::run_index_bounds(runs, b);
    stored_is_found(runs, runs.len() - 1);
    if has_run(runs, a) {
        assert(runs[crate::store::run_index(runs, a)].run.id@ == a);
    }
    if has_run(runs, b) {
        assert(runs[crate::store::run_index(runs, b)].run.id@ == b);
    }
    if let Err(f) = compared_runs(c, runs) {
        if !has_run(runs, a) {
            assert(f == Failure::TestRunNotFound(a));
        } else {
            assert(f == Failure::TestRunNotFound(b));
        }
    }
}

/// A test that passed and fails now is a new failure, one that failed and passes now is a new pass,
/// and one with a result in one run only was added or removed. Other results that differ are other
/// changes, and equal results are none.
pub proof fn kinds_say_what_changed(s1: Seq<TestResult>, s2: Seq<TestResult>, t: Seq<char>)
    ensures
        ({
            let kind = kind_of(change_between(s1, s2, t));
            let old = entry_of(s1, t).status;
            let new = entry_of(s2, t).status;
            let both = has_key(s1, t) && has_key(s2, t);
            &&& kind == ChangeKind::NewFailure <==> both && !is_failure(old) && is_failure(new)
            &&& kind == ChangeKind::NewPass <==> both && is_failure(old) && !is_failure(new)
            &&& kind == ChangeKind::StatusChanged <==> both && old != new && is_failure(old)
                == is_failure(new)
            &&& kind == ChangeKind::Added <==> !has_key(s1, t) && has_key(s2, t)
            &&& kind == ChangeKind::Removed <==> has_key(s1, t) && !has_key(s2, t)
        }),
{
}

/// The exit code tells whether a test that passed fails now: the list of new failures is empty
/// exactly if there is no such test.
pub proof fn new_failures_are_tests_that_passed(s1: Seq<TestResult>, s2: Seq<TestResult>)
    ensures
        of_kind(result_names(s2), s1, s2, ChangeKind::NewFailure).len() > 0 <==> exists|t: Seq<char>|
            #![trigger has_key(s1, t)]
            has_key(s1, t) && has_key(s2, t) && !is_failure(entry_of(s1, t).status) && is_failure(
                entry_of(s2, t).status,
            ),
{
    let all = of_kind(result_names(s2), s1, s2, ChangeKind::NewFailure);
    if all.len() > 0 {
        let t = all[0];
        assert(all.contains(t));
        changes_are_listed_once(s1, s2, ChangeKind::NewFailure, t);
        kinds_say_what_changed(s1, s2, t);
        assert(has_key(s1, t));
    }
    if exists|t: Seq<char>|
        #![trigger has_key(s1, t)]
        has_key(s1, t) && has_key(s2, t) && !is_failure(entry_of(s1, t).status) && is_failure(
            entry_of(s2, t).status,
        ) {
        let t = choose|t: Seq<char>|
            #![trigger has_key(s1, t)]
            has_key(s1, t) && has_key(s2, t) && !is_failure(entry_of(s1, t).status) && is_failure(
                entry_of(s2, t).status,
            );
        changes_are_listed_once(s1, s2, ChangeKind::NewFailure, t);
        let k = choose|k: int| 0 <= k < all.len() && all[k] == t;
    }
}

/// Every test whose results differ is told, on a line that starts with two blanks and its name.
/// Where no results differ, it is said that there are no changes.
pub proof fn every_change_is_told(a: Seq<char>, b: Seq<char>, s1: Seq<TestResult>, s2: Seq<TestResult>)
    ensures
        forall|t: Seq<char>| #[trigger]
            status_in(s1, t) != status_in(s2, t) ==> exists|k: int|
                0 <= k < comparison(a, b, s1, s2).len() && has_prefix(
                    #[trigger] comparison(a, b, s1, s2)[k],
                    "  "@ + t,
                ),
        (forall|t: Seq<char>| #[trigger] status_in(s1, t) == status_in(s2, t)) ==> comparison(
            a,
            b,
            s1,
            s2,
        ).last() == "No changes."@,
{
    let lines = diff_lines(s1, s2);
    let said = comparison(a, b, s1, s2);
    assert forall|t: Seq<char>| #[trigger] status_in(s1, t) != status_in(s2, t) implies exists|k: int|
        0 <= k < said.len() && has_prefix(#[trigger] said[k], "  "@ + t) by {
        let kind = kind_of(change_between(s1, s2, t));
        let of = if kind == ChangeKind::Removed {
            s1
        } else {
            s2
        };
        changes_are_listed_once(s1, s2, kind, t);
        let names = of_kind(result_names(of), s1, s2, kind);
        let n = choose|n: int| 0 <= n < names.len() && names[n] == t;
        let part = change_part(names, s1, s2);
        let line = change_line(t, change_between(s1, s2, t));
        assert(part(n)[0] == line);
        let x = crate::gather::gathered_holds(part, names.len(), n, 0);
        let title = match kind {
            ChangeKind::NewFailure => "New failures"@,
            ChangeKind::NewPass => "New passes"@,
            ChangeKind::StatusChanged => "Status changed"@,
            ChangeKind::Added => "Added tests"@,
            _ => "Removed tests"@,
        };
        let section = section_lines(title, of, s1, s2, kind);
        assert(section[x + 1] == line);
        let s_a = section_lines("New failures"@, s2, s1, s2, ChangeKind::NewFailure);
        let s_b = section_lines("New passes"@, s2, s1, s2, ChangeKind::NewPass);
        let s_c = section_lines("Status changed"@, s2, s1, s2, ChangeKind::StatusChanged);
        let s_d = section_lines("Added tests"@, s2, s1, s2, ChangeKind::Added);
        let s_e = section_lines("Removed tests"@, s1, s1, s2, ChangeKind::Removed);
        let skipped: nat = match kind {
            ChangeKind::NewFailure => 0,
            ChangeKind::NewPass => s_a.len(),
            ChangeKind::StatusChanged => s_a.len() + s_b.len(),
            ChangeKind::Added => s_a.len() + s_b.len() + s_c.len(),
            _ => s_a.len() + s_b.len() + s_c.len() + s_d.len(),
        };
        assert(lines == s_a + s_b + s_c + s_d + s_e);
        assert(lines[skipped + x + 1] == line);
        assert(said[skipped + x + 2] == line);
        assert(line.take(("  "@ + t).len() as int) =~= "  "@ + t);
    }
    if forall|t: Seq<char>| #[trigger] status_in(s1, t) == status_in(s2, t) {
        none_listed(result_names(s2), s1, s2, ChangeKind::NewFailure);
        none_listed(result_names(s2), s1, s2, ChangeKind::NewPass);
        none_listed(result_names(s2), s1, s2, ChangeKind::StatusChanged);
        none_listed(result_names(s2), s1, s2, ChangeKind::Added);
        none_listed(result_names(s1), s1, s2, ChangeKind::Removed);
        assert(lines.len() == 0);
    }
}

proof fn none_listed(
    names: Seq<Seq<char>>,
    s1: Seq<TestResult>,
    s2: Seq<TestResult>,
    kind: ChangeKind,
)
    requires
        kind != ChangeKind::Same,
        forall|t: Seq<char>| #[trigger] status_in(s1, t) == status_in(s2, t),
    ensures
        of_kind(names, s1, s2, kind).len() == 0,
    decreases names.len(),
{
    if names.len() > 0 {
        none_listed(names.drop_last(), s1, s2, kind);
        assert(status_in(s1, names.last()) == status_in(s2, names.last()));
    }
}

/// A change the other way round.
pub open spec fn mirrored(c: Change) -> Change {
    Change { old: c.new, new: c.old }
}

/// Whether two lists name the same tests in the same order, with changes the other way round.
pub open spec fn mirror_each_other(v: Seq<DiffEntry>, w: Seq<DiffEntry>) -> bool {
    &&& entry_names(v) == entry_names(w)
    &&& forall|i: int| 0 <= i < v.len() ==> (#[trigger] v[i]).change == mirrored(w[i].change)
}

/// Two runs compared the other way round show the same changes the other way round: what was a new
/// failure is a new pass, and what was added is removed.
pub proof fn diff_is_mirrored(d: RunDiff, e: RunDiff, s1: Seq<TestResult>, s2: Seq<TestResult>)
    requires
        keys_ascend(s1),
        keys_ascend(s2),
        is_diff(d, s1, s2),
        is_diff(e, s2, s1),
    ensures
        mirror_each_other(e.new_failures@, d.new_passes@),
        mirror_each_other(e.new_passes@, d.new_failures@),
        mirror_each_other(e.added@, d.removed@),
        mirror_each_other(e.removed@, d.added@),
        mirror_each_other(e.status_changed@, d.status_changed@),
{
    kinds_are_mirrored(
        e.new_failures@,
        d.new_passes@,
        s1,
        s2,
        s1,
        s2,
        ChangeKind::NewFailure,
        ChangeKind::NewPass,
    );
    kinds_are_mirrored(
        e.new_passes@,
        d.new_failures@,
        s1,
        s2,
        s1,
        s2,
        ChangeKind::NewPass,
        ChangeKind::NewFailure,
    );
    kinds_are_mirrored(
        e.added@,
        d.removed@,
        s1,
        s1,
        s1,
        s2,
        ChangeKind::Added,
        ChangeKind::Removed,
    );
    kinds_are_mirrored(
        e.removed@,
        d.added@,
        s2,
        s2,
        s1,
        s2,
        ChangeKind::Removed,
        ChangeKind::Added,
    );
    kinds_are_mirrored(
        e.status_changed@,
        d.status_changed@,
        s1,
        s2,
        s1,
        s2,
        ChangeKind::StatusChanged,
        ChangeKind::StatusChanged,
    );
}

/// The tests of one kind are those of its mirror image the other way round.
proof fn kinds_are_mirrored(
    v: Seq<DiffEntry>,
    w: Seq<DiffEntry>,
    from: Seq<TestResult>,
    of: Seq<TestResult>,
    s1: Seq<TestResult>,
    s2: Seq<TestResult>,
    back: ChangeKind,
    forth: ChangeKind,
)
    requires
        keys_ascend(from),
        keys_ascend(of),
        lists_kind(v, from, s2, s1, back),
        lists_kind(w, of, s1, s2, forth),
        forall|c: Change| #[trigger] kind_of(c) == forth <==> kind_of(mirrored(c)) == back,
        forall|t: Seq<char>| #[trigger]
            kind_of(change_between(s1, s2, t)) == forth ==> has_key(from, t) && has_key(of, t),
    ensures
        mirror_each_other(v, w),
{
    let a = of_kind(result_names(from), s2, s1, back);
    let b = of_kind(result_names(of), s1, s2, forth);
    assert forall|t: Seq<char>| a.contains(t) <==> #[trigger] b.contains(t) by {
        of_kind_is(result_names(from), s2, s1, back, t);
        of_kind_is(result_names(of), s1, s2, forth, t);
        names_are_keys(from, t);
        names_are_keys(of, t);
        let c = change_between(s1, s2, t);
        assert(mirrored(c) == change_between(s2, s1, t));
        assert(kind_of(c) == forth <==> kind_of(mirrored(c)) == back);
    }
    names_ascend(from);
    names_ascend(of);
    kind_ascends(result_names(from), s2, s1, back);
    kind_ascends(result_names(of), s1, s2, forth);
    ascending_is_unique(a, b);
    assert forall|i: int| 0 <= i < v.len() implies (#[trigger] v[i]).change == mirrored(
        w[i].change,
    ) by {
        assert(entry_names(v)[i] == entry_names(w)[i]);
        assert(entry_names(v).len() == entry_names(w).len());
        assert(w[i].change == change_between(s1, s2, w[i].test_id@));
    }
}

/// The names of results that ascend do.
proof fn names_ascend(s: Seq<TestResult>)
    requires
        keys_ascend(s),
    ensures
        forall|i: int, j: int|
            0 <= i < j < result_names(s).len() ==> text_lt(
                #[trigger] result_names(s)[i],
                #[trigger] result_names(s)[j],
            ),
{
    assert forall|i: int, j: int| 0 <= i < j < result_names(s).len() implies text_lt(
        #[trigger] result_names(s)[i],
        #[trigger] result_names(s)[j],
    ) by {
        assert(text_lt(
            crate::collection::Keyed::key_text(&s[i]),
            crate::collection::Keyed::key_text(&s[j]),
        ));
    }
}

/// The names of a kind ascend where all names do.
proof fn kind_ascends(
    names: Seq<Seq<char>>,
    s1: Seq<TestResult>,
    s2: Seq<TestResult>,
    kind: ChangeKind,
)
    requires
        forall|i: int, j: int|
            0 <= i < j < names.len() ==> text_lt(#[trigger] names[i], #[trigger] names[j]),
    ensures
        forall|i: int, j: int|
            0 <= i < j < of_kind(names, s1, s2, kind).len() ==> text_lt(
                #[trigger] of_kind(names, s1, s2, kind)[i],
                #[trigger] of_kind(names, s1, s2, kind)[j],
            ),
    decreases names.len(),
{
    if names.len() > 0 {
        let init = names.drop_last();
        let before = of_kind(init, s1, s2, kind);
        let all = of_kind(names, s1, s2, kind);
        kind_ascends(init, s1, s2, kind);
        assert forall|i: int, j: int| 0 <= i < j < all.len() implies text_lt(
            #[trigger] all[i],
            #[trigger] all[j],
        ) by {
            if j == before.len() {
                assert(before.contains(before[i]));
                of_kind_is(init, s1, s2, kind, before[i]);
                let k = choose|k: int| 0 <= k < init.len() && init[k] == before[i];
                assert(names[k] == all[i]);
                assert(names[names.len() - 1] == all[j]);
            }
        }
    }
}

impl Command for DiffCommand {
    fn name(&self) -> (r: &str)
        ensures
            r@ == "diff"@,
    {
        "diff"
    }

    fn help(&self) -> (r: &str)
        ensures
            r@ == "Compare two test runs and show what changed"@,
    {
        "Compare two test runs and show what changed"
    }
}

} // verus!
