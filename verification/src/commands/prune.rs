//! Dropping runs.

use vstd::prelude::*;
use vstd::string::*;

use crate::collection::has_key;
use crate::commands::Command;
use crate::config::timeout::one_char;
use crate::error::{outcome_view, Error, Failure, Result};
use crate::gather::gathered;
use crate::machine::{conversion_problem, current_time};
use crate::repository::{run_names, test_names, RunId};
use crate::spans::{scan_span, span, span_nanos, SpanProblem, Units};
use crate::store::{has_run, kept_failing, kept_runs, known_runs, names_run, run_of, stored_names, Store, StoredRun};
use crate::text::compose::{cat2, cat3, cat5, texts};
use crate::text::number::{count_text, decimal};
use crate::text::scan::{has_text, trim, trimmed};
use crate::time::{Duration, Timestamp, MAX_NANOS};
use crate::ui::{outputs, Line, Transcript};

verus! {

broadcast use {crate::text::compose::texts_push, crate::repository::run_names_push};

/// Which runs to drop.
#[derive(Debug)]
pub enum PruneSelection {
    /// All but the latest ones, so many of which are kept.
    Keep(usize),
    /// Those that were started longer ago.
    OlderThan(Duration),
    /// Those named.
    Explicit(Vec<String>),
    /// All.
    All,
}

/// Command that drops runs.
#[derive(Debug)]
pub struct PruneCommand {
    /// Where the project is.
    pub base_path: Option<String>,
    /// Which runs to drop.
    pub selection: PruneSelection,
    /// Whether only to tell what would be dropped.
    pub dry_run: bool,
}

/// A point in time in nanoseconds.
pub open spec fn moment(t: Timestamp) -> int {
    t.seconds * 1_000_000_000 + t.nanos
}

/// Whether a run was started before a point in time.
pub open spec fn is_older(r: StoredRun, cutoff: int) -> bool {
    r.started_at is Some && moment(r.started_at->0) < cutoff
}

/// The names of the runs that were started before a point in time.
pub open spec fn older_runs(runs: Seq<StoredRun>, cutoff: int) -> Seq<Seq<char>>
    decreases runs.len(),
{
    if runs.len() == 0 {
        Seq::empty()
    } else {
        let before = older_runs(runs.drop_last(), cutoff);
        if is_older(runs.last(), cutoff) {
            before.push(runs.last().run.id@)
        } else {
            before
        }
    }
}

/// The first name, from position `from` on, that no run has.
pub open spec fn first_unknown(ids: Seq<Seq<char>>, from: int, names: Seq<Seq<char>>) -> Option<
    Seq<char>,
>
    decreases ids.len() - from,
{
    if 0 <= from < ids.len() {
        if has_text(names, ids[from]) {
            first_unknown(ids, from + 1, names)
        } else {
            Some(ids[from])
        }
    } else {
        None
    }
}

/// The runs to drop at a point in time.
pub open spec fn selected(runs: Seq<StoredRun>, s: PruneSelection, now: Timestamp) -> core::result::Result<
    Seq<Seq<char>>,
    Failure,
> {
    let names = stored_names(runs);
    match s {
        PruneSelection::Keep(n) => Ok(
            if names.len() <= n {
                Seq::empty()
            } else {
                names.take(names.len() - n)
            },
        ),
        PruneSelection::OlderThan(d) => if d@ > i64::MAX * 1_000_000 {
            Err(
                Failure::Other(
                    "duration too large to convert: Source duration value is out of range for the target type"@,
                ),
            )
        } else {
            Ok(older_runs(runs, moment(now) - d@))
        },
        PruneSelection::Explicit(ids) => match first_unknown(texts(ids@), 0, names) {
            Some(id) => Err(Failure::TestRunNotFound(id)),
            None => Ok(texts(ids@)),
        },
        PruneSelection::All => Ok(names),
    }
}

/// The runs to drop at a point in time.
pub fn select_run_ids(store: &Store, selection: &PruneSelection, now: Timestamp) -> (r: Result<
    Vec<RunId>,
>)
    ensures
        match selected(store.runs@, *selection, now) {
            Ok(ids) => r matches Ok(v) && run_names(v@) == ids,
            Err(f) => r matches Err(e) && e@ == f,
        },
{
    let all: Vec<RunId> = store.list_run_ids();
    let ghost names = stored_names(store.runs@);
    match selection {
        PruneSelection::Keep(n) => {
            let mut v: Vec<RunId> = Vec::new();
            let cutoff: usize = if all.len() <= *n {
                0
            } else {
                all.len() - *n
            };
            for i in 0..cutoff
                invariant
                    names == run_names(all@),
                    cutoff <= all@.len(),
                    run_names(v@) =~= names.take(i as int),
            {
                v.push(all[i].copy());
            }
            assert(names.take(0) =~= Seq::<Seq<char>>::empty());
            Ok(v)
        },
        PruneSelection::OlderThan(d) => {
            let (seconds, nanos): (u64, u32) = d.parts();
            if let Some(m) = conversion_problem(seconds, nanos) {
                proof {
                    reveal_strlit("duration too large to convert: ");
                    reveal_strlit("Source duration value is out of range for the target type");
                    reveal_strlit(
                        "duration too large to convert: Source duration value is out of range for the target type",
                    );
                    assert("duration too large to convert: "@
                        + "Source duration value is out of range for the target type"@
                        =~= "duration too large to convert: Source duration value is out of range for the target type"@);
                }
                return Err(Error::Other(cat2("duration too large to convert: ", m.as_str())));
            }
            let cutoff: i128 = now.seconds as i128 * 1_000_000_000 + now.nanos as i128
                - d.as_nanos() as i128;
            let mut v: Vec<RunId> = Vec::new();
            assert(run_names(v@) =~= older_runs(store.runs@.take(0), cutoff as int));
            for i in 0..store.runs.len()
                invariant
                    run_names(v@) == older_runs(store.runs@.take(i as int), cutoff as int),
            {
                assert(store.runs@.take(i + 1).drop_last() =~= store.runs@.take(i as int));
                if let Some(t) = store.runs[i].started_at {
                    let start: i128 = t.seconds as i128 * 1_000_000_000 + t.nanos as i128;
                    if start < cutoff {
                        v.push(store.runs[i].run.id.copy());
                    }
                }
            }
            assert(store.runs@.take(store.runs@.len() as int) =~= store.runs@);
            Ok(v)
        },
        PruneSelection::Explicit(ids) => {
            let ghost wanted = texts(ids@);
            let mut v: Vec<RunId> = Vec::new();
            for i in 0..ids.len()
                invariant
                    names == run_names(all@),
                    names == stored_names(store.runs@),
                    *selection == PruneSelection::Explicit(*ids),
                    wanted == texts(ids@),
                    first_unknown(wanted, 0, names) == first_unknown(wanted, i as int, names),
                    run_names(v@) =~= wanted.take(i as int),
            {
                assert(wanted[i as int] == ids@[i as int]@);
                if !names_run(&all, ids[i].as_str()) {
                    return Err(Error::TestRunNotFound(ids[i].clone()));
                }
                v.push(RunId::new(ids[i].as_str()));
            }
            assert(wanted.take(ids@.len() as int) =~= wanted);
            Ok(v)
        },
        PruneSelection::All => Ok(all),
    }
}

/// The names of runs that are going on, or of those that are not.
pub open spec fn with_progress(ids: Seq<Seq<char>>, runs: Seq<StoredRun>, going_on: bool) -> Seq<
    Seq<char>,
>
    decreases ids.len(),
{
    if ids.len() == 0 {
        Seq::empty()
    } else {
        let before = with_progress(ids.drop_last(), runs, going_on);
        if (has_run(runs, ids.last()) && run_of(runs, ids.last()).in_progress) == going_on {
            before.push(ids.last())
        } else {
            before
        }
    }
}

/// Warnings of runs that are going on.
pub open spec fn skip_lines(ids: Seq<Seq<char>>) -> Seq<Line> {
    Seq::new(ids.len(), |i: int| Line::Warning("Skipping in-progress run "@ + ids[i]))
}

/// The name of a run.
pub open spec fn name_part(ids: Seq<Seq<char>>) -> spec_fn(int) -> Seq<Seq<char>> {
    |i: int| seq!["  "@ + ids[i]]
}

/// What is said of runs that are dropped, or would be.
pub open spec fn pruned_lines(ids: Seq<Seq<char>>, runs: Seq<StoredRun>, dry_run: bool) -> Seq<
    Seq<char>,
> {
    if ids.len() == 0 {
        seq!["No runs to prune."@]
    } else if dry_run {
        seq!["Would prune "@ + decimal(ids.len()) + " run(s):"@] + gathered(
            name_part(ids),
            ids.len(),
        )
    } else {
        let gone = known_runs(ids, runs);
        seq!["Pruned "@ + decimal(gone.len()) + " run(s)."@] + gathered(
            name_part(gone),
            gone.len(),
        )
    }
}

/// The names of runs, one per line.
fn push_names(out: &mut Vec<String>, ids: &Vec<RunId>)
    ensures
        texts(final(out)@) == texts(old(out)@) + gathered(
            name_part(run_names(ids@)),
            ids@.len(),
        ),
{
    let ghost names = run_names(ids@);
    for i in 0..ids.len()
        invariant
            names == run_names(ids@),
            texts(out@) =~= texts(old(out)@) + gathered(name_part(names), i as nat),
    {
        out.push(cat2("  ", ids[i].as_str()));
    }
}

impl PruneCommand {
    /// A command for a selection.
    pub fn new(base_path: Option<String>, selection: PruneSelection, dry_run: bool) -> (r: Self)
        ensures
            r == (PruneCommand { base_path, selection, dry_run }),
    {
        PruneCommand { base_path, selection, dry_run }
    }

    /// Drops the runs at a point in time. Runs that are going on are kept.
    pub fn execute_at(&self, store: &mut Store, now: Timestamp, ui: &mut Transcript) -> (r: Result<
        i32,
    >)
        ensures
            pruned(*self, *old(store), *final(store), old(ui)@, final(ui)@, now, r),
    {
        let ids: Vec<RunId> = match select_run_ids(store, &self.selection, now) {
            Ok(v) => v,
            Err(e) => {
                return Err(e);
            },
        };
        let ghost names = run_names(ids@);
        let ghost runs = store.runs@;
        let mut rest: Vec<RunId> = Vec::new();
        assert(run_names(rest@) =~= with_progress(names.take(0), runs, false));
        assert(ui@ =~= old(ui)@ + skip_lines(with_progress(names.take(0), runs, true)));
        for i in 0..ids.len()
            invariant
                names == run_names(ids@),
                *store == *old(store),
                runs == store.runs@,
                run_names(rest@) == with_progress(names.take(i as int), runs, false),
                ui@ == old(ui)@ + skip_lines(with_progress(names.take(i as int), runs, true)),
        {
            assert(names.take(i + 1).drop_last() =~= names.take(i as int));
            let ghost skipped = with_progress(names.take(i as int), runs, true);
            if store.is_run_in_progress(ids[i].as_str()) {
                ui.warning(cat2("Skipping in-progress run ", ids[i].as_str()).as_str());
                assert(ui@ =~= old(ui)@ + skip_lines(skipped.push(names[i as int])));
            } else {
                rest.push(ids[i].copy());
            }
        }
        assert(names.take(names.len() as int) =~= names);
        let ghost before = ui@;
        let ghost left = run_names(rest@);
        assert(left.len() == rest@.len());
        let mut out: Vec<String> = Vec::new();
        if rest.len() == 0 {
            out.push("No runs to prune.".to_owned());
        } else if self.dry_run {
            out.push(cat3("Would prune ", count_text(rest.len()).as_str(), " run(s):"));
            push_names(&mut out, &rest);
        } else {
            let gone: Vec<RunId> = store.prune_runs(&rest);
            assert(run_names(gone@).len() == gone@.len());
            out.push(cat3("Pruned ", count_text(gone.len()).as_str(), " run(s)."));
            push_names(&mut out, &gone);
        }
        assert(texts(out@) =~= pruned_lines(left, runs, self.dry_run));
        ui.output_all(&out);
        assert(ui@ =~= old(ui)@ + (skip_lines(with_progress(names, runs, true)) + outputs(
            pruned_lines(left, runs, self.dry_run),
        )));
        Ok(0)
    }

    /// Drops the runs. Runs that are going on are kept.
    pub fn execute(&self, store: &mut Store, ui: &mut Transcript) -> (r: Result<i32>)
        ensures
            exists|now: Timestamp| #[trigger]
                pruned(*self, *old(store), *final(store), old(ui)@, final(ui)@, now, r),
    {
        let now: Timestamp = current_time();
        let r: Result<i32> = self.execute_at(store, now, ui);
        assert(pruned(*self, *old(store), *store, old(ui)@, ui@, now, r));
        r
    }
}

/// Whether a command dropped runs at a point in time.
pub open spec fn pruned(
    c: PruneCommand,
    before: Store,
    after: Store,
    said_before: Seq<Line>,
    said_after: Seq<Line>,
    now: Timestamp,
    r: Result<i32>,
) -> bool {
    match selected(before.runs@, c.selection, now) {
        Err(f) => r matches Err(e) && e@ == f && after == before && said_after == said_before,
        Ok(ids) => {
            let left = with_progress(ids, before.runs@, false);
            &&& r == Ok::<i32, Error>(0)
            &&& said_after == said_before + (skip_lines(with_progress(ids, before.runs@, true))
                + outputs(pruned_lines(left, before.runs@, c.dry_run)))
            &&& if left.len() == 0 || c.dry_run {
                after == before
            } else {
                &&& after.runs@ == kept_runs(before.runs@, left)
                &&& test_names(after.failing@) == kept_failing(
                    test_names(before.failing@),
                    before.runs@,
                    left,
                )
                &&& after.times == before.times
            }
        },
    }
}

/// The nanoseconds that the text of an age denotes, or what is wrong with it.
pub open spec fn parsed_age(text: Seq<char>) -> core::result::Result<nat, Failure> {
    let s = trimmed(text);
    if s.len() == 0 {
        Err(Failure::Other("empty duration string"@))
    } else {
        match span(Units::Calendar, s) {
            Err(SpanProblem::NoNumber) => Err(
                Failure::Other("invalid duration string: '"@ + s + "'"@),
            ),
            Err(SpanProblem::BadNumber) => Err(
                Failure::Other("invalid number in duration string: '"@ + s + "'"@),
            ),
            Err(SpanProblem::BadUnit(c)) => Err(
                Failure::Other(
                    "invalid duration suffix '"@ + seq![c] + "' in '"@ + s
                        + "' (use 's', 'm', 'h', 'd', or 'w')"@,
                ),
            ),
            Ok(x) => if x.0 == 0 {
                Err(Failure::Other("duration must be positive: '"@ + s + "'"@))
            } else if span_nanos(x) > MAX_NANOS {
                Err(Failure::Other("duration is too long: '"@ + s + "'"@))
            } else {
                Ok(span_nanos(x))
            },
        }
    }
}

/// Reads an age such as `30s`, `5m`, `1h`, `2d`, `1w` or `1d12h`; a number without a unit is in
/// seconds.
pub fn parse_age_string(s: &str) -> (r: Result<Duration>)
    ensures
        outcome_view(r) == parsed_age(s@),
{
    let t: String = trim(s);
    if t.as_str().is_empty() {
        return Err(Error::Other("empty duration string".to_owned()));
    }
    match scan_span(Units::Calendar, t.as_str()) {
        Err(SpanProblem::NoNumber) => Err(
            Error::Other(cat3("invalid duration string: '", t.as_str(), "'")),
        ),
        Err(SpanProblem::BadNumber) => Err(
            Error::Other(cat3("invalid number in duration string: '", t.as_str(), "'")),
        ),
        Err(SpanProblem::BadUnit(c)) => Err(
            Error::Other(
                cat5(
                    "invalid duration suffix '",
                    one_char(c).as_str(),
                    "' in '",
                    t.as_str(),
                    "' (use 's', 'm', 'h', 'd', or 'w')",
                ),
            ),
        ),
        Ok(scanned) => if !scanned.positive {
            Err(Error::Other(cat3("duration must be positive: '", t.as_str(), "'")))
        } else {
            match scanned.length {
                Some(d) => Ok(d),
                None => Err(Error::Other(cat3("duration is too long: '", t.as_str(), "'"))),
            }
        },
    }
}

/// Keeping the latest runs keeps exactly those: where all runs have names of their own and none is
/// going on, dropping all but `n` runs leaves the last `n`.
pub proof fn keep_leaves_the_latest(runs: Seq<StoredRun>, n: usize, now: Timestamp)
    requires
        forall|i: int, j: int|
            0 <= i < j < runs.len() ==> (#[trigger] runs[i]).run.id@ != (#[trigger] runs[j]).run.id@,
        forall|i: int| 0 <= i < runs.len() ==> !(#[trigger] runs[i]).in_progress,
    ensures
        selected(runs, PruneSelection::Keep(n), now) matches Ok(ids) && kept_runs(
            runs,
            with_progress(ids, runs, false),
        ) == (if runs.len() <= n {
            runs
        } else {
            runs.skip(runs.len() - n)
        }),
{
    let names = stored_names(runs);
    let cut = if runs.len() <= n {
        0
    } else {
        runs.len() - n
    };
    let ids = names.take(cut);
    assert(names.take(0) =~= Seq::<Seq<char>>::empty());
    none_going_on(ids, runs);
    kept_is(runs, ids, cut, runs.len() as int);
    assert(runs.take(runs.len() as int) =~= runs);
    assert(runs.skip(0) =~= runs);
    assert(runs.subrange(cut, runs.len() as int) =~= runs.skip(cut));
}

/// Dropped runs are gone, and no others: a run stays exactly if its name is not among those to be
/// dropped.
pub proof fn dropped_runs_are_gone(runs: Seq<StoredRun>, ids: Seq<Seq<char>>, r: StoredRun)
    ensures
        kept_runs(runs, ids).contains(r) <==> runs.contains(r) && !has_text(ids, r.run.id@),
    decreases runs.len(),
{
    let all = kept_runs(runs, ids);
    if runs.len() > 0 {
        let init = runs.drop_last();
        let before = kept_runs(init, ids);
        dropped_runs_are_gone(init, ids, r);
        assert(runs[runs.len() - 1] == runs.last());
        if runs.contains(r) {
            let i = choose|i: int| 0 <= i < runs.len() && runs[i] == r;
            if i < init.len() {
                assert(init[i] == r);
            }
        }
        if init.contains(r) {
            let i = choose|i: int| 0 <= i < init.len() && init[i] == r;
            assert(runs[i] == r);
        }
        if all.contains(r) {
            let i = choose|i: int| 0 <= i < all.len() && all[i] == r;
            if i < before.len() {
                assert(before[i] == r);
            }
        }
        if before.contains(r) {
            let i = choose|i: int| 0 <= i < before.len() && before[i] == r;
            assert(all[i] == r);
        }
        if !has_text(ids, runs.last().run.id@) {
            assert(all[all.len() - 1] == runs.last());
        }
    }
}

/// A run is going on, or not, exactly as its name is taken to be.
proof fn progress_is(ids: Seq<Seq<char>>, runs: Seq<StoredRun>, going_on: bool, t: Seq<char>)
    ensures
        has_text(with_progress(ids, runs, going_on), t) <==> has_text(ids, t) && (has_run(runs, t)
            && run_of(runs, t).in_progress) == going_on,
    decreases ids.len(),
{
    let all = with_progress(ids, runs, going_on);
    if ids.len() > 0 {
        let init = ids.drop_last();
        let before = with_progress(init, runs, going_on);
        progress_is(init, runs, going_on, t);
        assert(ids[ids.len() - 1] == ids.last());
        if has_text(ids, t) {
            let k = choose|k: int| 0 <= k < ids.len() && #[trigger] ids[k] == t;
            if k < init.len() {
                assert(init[k] == t);
            }
        }
        if has_text(init, t) {
            let k = choose|k: int| 0 <= k < init.len() && #[trigger] init[k] == t;
            assert(ids[k] == t);
        }
        if has_text(all, t) {
            let k = choose|k: int| 0 <= k < all.len() && #[trigger] all[k] == t;
            if k < before.len() {
                assert(before[k] == t);
            }
        }
        if has_text(before, t) {
            let k = choose|k: int| 0 <= k < before.len() && #[trigger] before[k] == t;
            assert(all[k] == t);
        }
        if all.len() > before.len() {
            assert(all[all.len() - 1] == ids.last());
        }
    }
}

/// A name is that of an old run exactly if a run of that name is old.
proof fn older_is(runs: Seq<StoredRun>, cutoff: int, t: Seq<char>)
    ensures
        has_text(older_runs(runs, cutoff), t) <==> exists|i: int|
            0 <= i < runs.len() && is_older(#[trigger] runs[i], cutoff) && runs[i].run.id@ == t,
    decreases runs.len(),
{
    let all = older_runs(runs, cutoff);
    if runs.len() > 0 {
        let init = runs.drop_last();
        let before = older_runs(init, cutoff);
        older_is(init, cutoff, t);
        assert(runs[runs.len() - 1] == runs.last());
        if exists|i: int|
            0 <= i < runs.len() && is_older(#[trigger] runs[i], cutoff) && runs[i].run.id@ == t {
            let i = choose|i: int|
                0 <= i < runs.len() && is_older(#[trigger] runs[i], cutoff) && runs[i].run.id@ == t;
            if i < init.len() {
                assert(is_older(init[i], cutoff) && init[i].run.id@ == t);
                let k = choose|k: int| 0 <= k < before.len() && #[trigger] before[k] == t;
                assert(all[k] == t);
            } else {
                assert(all[all.len() - 1] == t);
            }
        }
        if has_text(all, t) {
            let k = choose|k: int| 0 <= k < all.len() && #[trigger] all[k] == t;
            if k < before.len() {
                assert(before[k] == t);
                let i = choose|i: int|
                    0 <= i < init.len() && is_older(#[trigger] init[i], cutoff) && init[i].run.id@
                        == t;
                assert(is_older(runs[i], cutoff) && runs[i].run.id@ == t);
            } else {
                assert(is_older(runs[runs.len() - 1], cutoff));
            }
        }
    }
}

/// A run is selected exactly if it is asked for: one that is not among the latest ones to keep, one
/// that was started longer ago than the age that is given, one that is named, or any.
pub proof fn runs_are_selected_as_asked(
    runs: Seq<StoredRun>,
    s: PruneSelection,
    now: Timestamp,
    i: int,
)
    requires
        selected(runs, s, now) is Ok,
        forall|a: int, b: int|
            0 <= a < b < runs.len() ==> (#[trigger] runs[a]).run.id@ != (#[trigger] runs[b]).run.id@,
        0 <= i < runs.len(),
    ensures
        has_text(selected(runs, s, now)->Ok_0, runs[i].run.id@) <==> match s {
            PruneSelection::Keep(n) => runs.len() - i > n,
            PruneSelection::OlderThan(d) => runs[i].started_at matches Some(t) && (now.seconds
                - t.seconds) * 1_000_000_000 + (now.nanos - t.nanos) > d@,
            PruneSelection::Explicit(ids) => exists|k: int|
                0 <= k < ids@.len() && (#[trigger] ids@[k])@ == runs[i].run.id@,
            PruneSelection::All => true,
        },
{
    let names = stored_names(runs);
    let id = runs[i].run.id@;
    let found = selected(runs, s, now)->Ok_0;
    assert(names[i] == id);
    if has_text(found, id) {
        let k = choose|k: int| 0 <= k < found.len() && #[trigger] found[k] == id;
        match s {
            PruneSelection::Keep(n) => {
                assert(runs[k].run.id@ == id);
                assert(k == i);
            },
            PruneSelection::Explicit(ids) => {
                assert(ids@[k]@ == id);
            },
            _ => {},
        }
    }
    match s {
        PruneSelection::Keep(n) => {
            if runs.len() - i > n {
                assert(found[i] == id);
            }
        },
        PruneSelection::OlderThan(d) => {
            let cutoff = moment(now) - d@;
            older_is(runs, cutoff, id);
            if is_older(runs[i], cutoff) {
                assert(has_text(found, id));
            }
            if has_text(found, id) {
                let j = choose|j: int|
                    0 <= j < runs.len() && is_older(#[trigger] runs[j], cutoff) && runs[j].run.id@
                        == id;
                assert(j == i);
            }
        },
        PruneSelection::Explicit(ids) => {
            if exists|k: int| 0 <= k < ids@.len() && (#[trigger] ids@[k])@ == id {
                let k = choose|k: int| 0 <= k < ids@.len() && (#[trigger] ids@[k])@ == id;
                assert(found[k] == id);
            }
        },
        PruneSelection::All => {
            assert(found[i] == id);
        },
    }
}

/// Dropping runs leaves exactly those that are going on or were not asked for: the latest ones
/// where some are kept, those that were started within the age that is given or at no known time,
/// those that are not named. What is left was there before.
pub proof fn runs_are_dropped_as_asked(
    c: PruneCommand,
    before: Store,
    after: Store,
    said_before: Seq<Line>,
    said_after: Seq<Line>,
    now: Timestamp,
    r: Result<i32>,
)
    requires
        pruned(c, before, after, said_before, said_after, now, r),
        r is Ok,
        !c.dry_run,
        forall|a: int, b: int|
            0 <= a < b < before.runs@.len() ==> (#[trigger] before.runs@[a]).run.id@ != (
            #[trigger] before.runs@[b]).run.id@,
    ensures
        forall|i: int|
            0 <= i < before.runs@.len() ==> (after.runs@.contains(#[trigger] before.runs@[i])
                <==> before.runs@[i].in_progress || !(match c.selection {
                PruneSelection::Keep(n) => before.runs@.len() - i > n,
                PruneSelection::OlderThan(d) => before.runs@[i].started_at matches Some(t) && (
                now.seconds - t.seconds) * 1_000_000_000 + (now.nanos - t.nanos) > d@,
                PruneSelection::Explicit(ids) => exists|k: int|
                    0 <= k < ids@.len() && (#[trigger] ids@[k])@ == before.runs@[i].run.id@,
                PruneSelection::All => true,
            })),
        forall|x: StoredRun| #[trigger] after.runs@.contains(x) ==> before.runs@.contains(x),
{
    let runs = before.runs@;
    let ids = selected(runs, c.selection, now)->Ok_0;
    let left = with_progress(ids, runs, false);
    assert forall|i: int| 0 <= i < runs.len() implies (after.runs@.contains(#[trigger] runs[i])
        <==> runs[i].in_progress || !(match c.selection {
        PruneSelection::Keep(n) => runs.len() - i > n,
        PruneSelection::OlderThan(d) => runs[i].started_at matches Some(t) && (now.seconds
            - t.seconds) * 1_000_000_000 + (now.nanos - t.nanos) > d@,
        PruneSelection::Explicit(ids) => exists|k: int|
            0 <= k < ids@.len() && (#[trigger] ids@[k])@ == runs[i].run.id@,
        PruneSelection::All => true,
    })) by {
        let id = runs[i].run.id@;
        assert(runs.contains(runs[i]));
        runs_are_selected_as_asked(runs, c.selection, now, i);
        progress_is(ids, runs, false, id);
        crate::store::run_index_is(runs, id, i);
        dropped_runs_are_gone(runs, left, runs[i]);
    }
    assert forall|x: StoredRun| #[trigger] after.runs@.contains(x) implies runs.contains(x) by {
        dropped_runs_are_gone(runs, left, x);
    }
}

/// Nothing is dropped where that is only tried, or where the command fails. It fails exactly where
/// a run is named that is not recorded, or where an age has more milliseconds than can be counted.
pub proof fn pruning_fails_or_tries_without_effect(
    c: PruneCommand,
    before: Store,
    after: Store,
    said_before: Seq<Line>,
    said_after: Seq<Line>,
    now: Timestamp,
    r: Result<i32>,
)
    requires
        pruned(c, before, after, said_before, said_after, now, r),
    ensures
        c.dry_run || r is Err ==> after == before,
        r is Ok ==> r->Ok_0 == 0,
        r is Err <==> match c.selection {
            PruneSelection::OlderThan(d) => d@ > i64::MAX * 1_000_000,
            PruneSelection::Explicit(ids) => exists|k: int|
                0 <= k < ids@.len() && forall|i: int|
                    0 <= i < before.runs@.len() ==> (#[trigger] before.runs@[i]).run.id@ != (
                    #[trigger] ids@[k])@,
            _ => false,
        },
{
    if let PruneSelection::Explicit(ids) = c.selection {
        let runs = before.runs@;
        let names = stored_names(runs);
        first_unknown_is(texts(ids@), 0, names);
        assert forall|k: int| 0 <= k < ids@.len() implies has_text(names, (#[trigger] ids@[k])@)
            == (exists|i: int| 0 <= i < runs.len() && (#[trigger] runs[i]).run.id@ == ids@[k]@) by {
            if has_text(names, ids@[k]@) {
                let i = choose|i: int| 0 <= i < names.len() && #[trigger] names[i] == ids@[k]@;
                assert(runs[i].run.id@ == ids@[k]@);
            }
            if exists|i: int| 0 <= i < runs.len() && (#[trigger] runs[i]).run.id@ == ids@[k]@ {
                let i = choose|i: int| 0 <= i < runs.len() && (#[trigger] runs[i]).run.id@ == ids@[k]@;
                assert(names[i] == ids@[k]@);
            }
        }
        if r is Err {
            let k = choose|k: int|
                0 <= k < ids@.len() && !has_text(names, #[trigger] texts(ids@)[k]);
            assert(!has_text(names, ids@[k]@));
        }
        if exists|k: int|
            0 <= k < ids@.len() && forall|i: int|
                0 <= i < runs.len() ==> (#[trigger] runs[i]).run.id@ != (#[trigger] ids@[k])@ {
            let k = choose|k: int|
                0 <= k < ids@.len() && forall|i: int|
                    0 <= i < runs.len() ==> (#[trigger] runs[i]).run.id@ != (#[trigger] ids@[k])@;
            assert(!has_text(names, texts(ids@)[k]));
        }
    }
}

/// As many runs are told to be dropped as are gone, and each by its name.
pub proof fn dropped_runs_are_told(
    c: PruneCommand,
    before: Store,
    after: Store,
    said_before: Seq<Line>,
    said_after: Seq<Line>,
    now: Timestamp,
    r: Result<i32>,
)
    requires
        pruned(c, before, after, said_before, said_after, now, r),
        r is Ok,
        !c.dry_run,
        after.runs@.len() < before.runs@.len(),
        forall|a: int, b: int|
            0 <= a < b < before.runs@.len() ==> (#[trigger] before.runs@[a]).run.id@ != (
            #[trigger] before.runs@[b]).run.id@,
    ensures
        said_after.contains(
            Line::Output(
                "Pruned "@ + decimal((before.runs@.len() - after.runs@.len()) as nat)
                    + " run(s)."@,
            ),
        ),
        forall|i: int|
            0 <= i < before.runs@.len() && !after.runs@.contains(#[trigger] before.runs@[i])
                ==> said_after.contains(Line::Output("  "@ + before.runs@[i].run.id@)),
{
    let runs = before.runs@;
    let ids = selected(runs, c.selection, now)->Ok_0;
    let left = with_progress(ids, runs, false);
    let gone = known_runs(left, runs);
    let lines = pruned_lines(left, runs, false);
    dropped_are_counted(runs, left);
    let head = skip_lines(with_progress(ids, runs, true));
    let at = said_before.len() + head.len();
    let all = said_before + (head + outputs(lines));
    assert(said_after == all);
    assert(outputs(lines)[0] == Line::Output(lines[0]));
    assert(all[at as int] == Line::Output(lines[0]));
    assert forall|i: int| 0 <= i < runs.len() && !after.runs@.contains(
        #[trigger] before.runs@[i],
    ) implies said_after.contains(Line::Output("  "@ + runs[i].run.id@)) by {
        let id = runs[i].run.id@;
        dropped_runs_are_gone(runs, left, runs[i]);
        assert(runs.contains(runs[i]));
        crate::store::run_index_is(runs, id, i);
        known_is(left, runs, id);
        let k = choose|k: int| 0 <= k < gone.len() && #[trigger] gone[k] == id;
        let part = name_part(gone);
        assert(part(k)[0] == "  "@ + id);
        let x = crate::gather::gathered_holds(part, gone.len(), k, 0);
        assert(lines[x + 1] == "  "@ + id);
        assert(outputs(lines)[x + 1] == Line::Output(lines[x + 1]));
        assert(all[at + x + 1] == Line::Output("  "@ + id));
    }
}

/// The names of runs that are dropped.
spec fn dropped_names(runs: Seq<StoredRun>, ids: Seq<Seq<char>>) -> Seq<Seq<char>>
    decreases runs.len(),
{
    if runs.len() == 0 {
        Seq::empty()
    } else {
        let before = dropped_names(runs.drop_last(), ids);
        if has_text(ids, runs.last().run.id@) {
            before.push(runs.last().run.id@)
        } else {
            before
        }
    }
}

/// As many names of recorded runs are known among those to be dropped as runs are dropped.
proof fn dropped_are_counted(runs: Seq<StoredRun>, ids: Seq<Seq<char>>)
    requires
        forall|a: int, b: int|
            0 <= a < b < runs.len() ==> (#[trigger] runs[a]).run.id@ != (#[trigger] runs[b]).run.id@,
    ensures
        known_runs(ids, runs).len() + kept_runs(runs, ids).len() == runs.len(),
{
    let known = known_runs(ids, runs);
    let names = dropped_names(runs, ids);
    dropped_names_are(runs, ids);
    known_differ(ids, runs);
    assert forall|t: Seq<char>| known.contains(t) <==> #[trigger] names.contains(t) by {
        known_is(ids, runs, t);
        crate::store::run_index_bounds(runs, t);
        if known.contains(t) {
            let k = choose|k: int| 0 <= k < known.len() && known[k] == t;
            assert(has_text(known, t));
            assert(runs[crate::store::run_index(runs, t)].run.id@ == t);
        }
        if names.contains(t) {
            let i = choose|i: int|
                0 <= i < runs.len() && (#[trigger] runs[i]).run.id@ == t && has_text(ids, t);
            assert(has_run(runs, t));
            let k = choose|k: int| 0 <= k < known.len() && #[trigger] known[k] == t;
            assert(known.contains(t));
        }
    }
    crate::sort::same_members(known, names);
}

proof fn dropped_names_are(runs: Seq<StoredRun>, ids: Seq<Seq<char>>)
    requires
        forall|a: int, b: int|
            0 <= a < b < runs.len() ==> (#[trigger] runs[a]).run.id@ != (#[trigger] runs[b]).run.id@,
    ensures
        dropped_names(runs, ids).len() + kept_runs(runs, ids).len() == runs.len(),
        dropped_names(runs, ids).no_duplicates(),
        forall|t: Seq<char>| #[trigger]
            dropped_names(runs, ids).contains(t) <==> exists|i: int|
                0 <= i < runs.len() && (#[trigger] runs[i]).run.id@ == t && has_text(ids, t),
    decreases runs.len(),
{
    let all = dropped_names(runs, ids);
    if runs.len() > 0 {
        let init = runs.drop_last();
        let before = dropped_names(init, ids);
        let last = runs.last().run.id@;
        assert forall|a: int, b: int| 0 <= a < b < init.len() implies (
        #[trigger] init[a]).run.id@ != (#[trigger] init[b]).run.id@ by {
            assert(runs[a].run.id@ != runs[b].run.id@);
        }
        dropped_names_are(init, ids);
        assert(runs[runs.len() - 1].run.id@ == last);
        if before.contains(last) {
            let i = choose|i: int|
                0 <= i < init.len() && (#[trigger] init[i]).run.id@ == last && has_text(ids, last);
            assert(runs[i].run.id@ != runs[runs.len() - 1].run.id@);
        }
        assert forall|t: Seq<char>| #[trigger] all.contains(t) <==> exists|i: int|
            0 <= i < runs.len() && (#[trigger] runs[i]).run.id@ == t && has_text(ids, t) by {
            if all.contains(t) {
                let k = choose|k: int| 0 <= k < all.len() && all[k] == t;
                if k < before.len() {
                    assert(before[k] == t);
                    assert(before.contains(t));
                    let i = choose|i: int|
                        0 <= i < init.len() && (#[trigger] init[i]).run.id@ == t && has_text(
                            ids,
                            t,
                        );
                    assert(runs[i].run.id@ == t);
                } else {
                    assert(runs[runs.len() - 1].run.id@ == t);
                }
            }
            if exists|i: int|
                0 <= i < runs.len() && (#[trigger] runs[i]).run.id@ == t && has_text(ids, t) {
                let i = choose|i: int|
                    0 <= i < runs.len() && (#[trigger] runs[i]).run.id@ == t && has_text(ids, t);
                if i < init.len() {
                    assert(init[i].run.id@ == t);
                    assert(before.contains(t));
                    let k = choose|k: int| 0 <= k < before.len() && before[k] == t;
                    assert(all[k] == t);
                } else {
                    assert(all[all.len() - 1] == t);
                }
            }
        }
        assert(all.no_duplicates()) by {
            assert forall|a: int, b: int|
                0 <= a < all.len() && 0 <= b < all.len() && a != b implies all[a] != all[b] by {
                if a < before.len() && b < before.len() {
                    assert(before[a] != before[b]);
                } else if a < before.len() {
                    assert(before.contains(before[a]));
                } else {
                    assert(before.contains(before[b]));
                }
            }
        }
    }
}

/// A name is known exactly if it is one of those and that of a recorded run.
proof fn known_is(ids: Seq<Seq<char>>, runs: Seq<StoredRun>, t: Seq<char>)
    ensures
        has_text(known_runs(ids, runs), t) <==> has_text(ids, t) && has_run(runs, t),
    decreases ids.len(),
{
    let all = known_runs(ids, runs);
    if ids.len() > 0 {
        let init = ids.drop_last();
        let before = known_runs(init, runs);
        known_is(init, runs, t);
        assert(ids[ids.len() - 1] == ids.last());
        if has_text(ids, t) {
            let k = choose|k: int| 0 <= k < ids.len() && #[trigger] ids[k] == t;
            if k < init.len() {
                assert(init[k] == t);
            }
        }
        if has_text(init, t) {
            let k = choose|k: int| 0 <= k < init.len() && #[trigger] init[k] == t;
            assert(ids[k] == t);
        }
        if has_text(all, t) {
            let k = choose|k: int| 0 <= k < all.len() && #[trigger] all[k] == t;
            if k < before.len() {
                assert(before[k] == t);
            }
        }
        if has_text(before, t) {
            let k = choose|k: int| 0 <= k < before.len() && #[trigger] before[k] == t;
            assert(all[k] == t);
        }
        if all.len() > before.len() {
            assert(all[all.len() - 1] == ids.last());
        }
    }
}

proof fn known_differ(ids: Seq<Seq<char>>, runs: Seq<StoredRun>)
    ensures
        known_runs(ids, runs).no_duplicates(),
    decreases ids.len(),
{
    if ids.len() > 0 {
        let before = known_runs(ids.drop_last(), runs);
        known_differ(ids.drop_last(), runs);
        let all = known_runs(ids, runs);
        assert forall|a: int, b: int|
            0 <= a < all.len() && 0 <= b < all.len() && a != b implies all[a] != all[b] by {
            if a < before.len() && b < before.len() {
                assert(before[a] != before[b]);
            } else if a < before.len() {
                assert(before[a] == all[a]);
            } else {
                assert(before[b] == all[b]);
            }
        }
    }
}

/// A name is unknown exactly if one of those from a position on is.
proof fn first_unknown_is(ids: Seq<Seq<char>>, from: int, names: Seq<Seq<char>>)
    requires
        0 <= from <= ids.len(),
    ensures
        first_unknown(ids, from, names) is Some <==> exists|k: int|
            from <= k < ids.len() && !has_text(names, #[trigger] ids[k]),
    decreases ids.len() - from,
{
    if from < ids.len() {
        first_unknown_is(ids, from + 1, names);
        if !has_text(names, ids[from]) {
            assert(!has_text(names, ids[from]));
        }
    }
}

/// A test that failed still counts as failing unless its latest result was dropped: the run that
/// holds it is gone, where no later run has a result of the test.
pub proof fn failing_tests_go_with_their_results(
    c: PruneCommand,
    before: Store,
    after: Store,
    said_before: Seq<Line>,
    said_after: Seq<Line>,
    now: Timestamp,
    r: Result<i32>,
    t: Seq<char>,
)
    requires
        pruned(c, before, after, said_before, said_after, now, r),
        forall|a: int, b: int|
            0 <= a < b < before.runs@.len() ==> (#[trigger] before.runs@[a]).run.id@ != (
            #[trigger] before.runs@[b]).run.id@,
    ensures
        has_text(test_names(after.failing@), t) <==> has_text(test_names(before.failing@), t) && !(
        exists|i: int|
            0 <= i < before.runs@.len() && has_key((#[trigger] before.runs@[i]).run.results@, t)
                && !after.runs@.contains(before.runs@[i]) && forall|k: int|
                i < k < before.runs@.len() ==> !has_key((#[trigger] before.runs@[k]).run.results@, t)),
{
    let runs = before.runs@;
    if r is Err || c.dry_run || with_progress(
        selected(runs, c.selection, now)->Ok_0,
        runs,
        false,
    ).len() == 0 {
        assert(forall|i: int|
            0 <= i < runs.len() ==> after.runs@.contains(#[trigger] before.runs@[i]));
    } else {
        let left = with_progress(selected(runs, c.selection, now)->Ok_0, runs, false);
        kept_failing_is(test_names(before.failing@), runs, left, t);
        holder_is(runs, t);
        if let Some(id) = crate::store::holder(runs, t) {
            let h = choose|h: int|
                0 <= h < runs.len() && has_key((#[trigger] runs[h]).run.results@, t)
                    && runs[h].run.id@ == id && forall|k: int|
                    h < k < runs.len() ==> !has_key((#[trigger] runs[k]).run.results@, t);
            dropped_runs_are_gone(runs, left, runs[h]);
            assert(runs.contains(runs[h]));
            if exists|i: int|
                0 <= i < runs.len() && has_key((#[trigger] before.runs@[i]).run.results@, t)
                    && !after.runs@.contains(before.runs@[i]) && forall|k: int|
                    i < k < runs.len() ==> !has_key((#[trigger] before.runs@[k]).run.results@, t) {
                let i = choose|i: int|
                    0 <= i < runs.len() && has_key((#[trigger] before.runs@[i]).run.results@, t)
                        && !after.runs@.contains(before.runs@[i]) && forall|k: int|
                        i < k < runs.len() ==> !has_key(
                            (#[trigger] before.runs@[k]).run.results@,
                            t,
                        );
                assert(i == h);
            }
        }
    }
}

/// Which names are kept of those of failing tests.
proof fn kept_failing_is(
    names: Seq<Seq<char>>,
    runs: Seq<StoredRun>,
    ids: Seq<Seq<char>>,
    t: Seq<char>,
)
    ensures
        has_text(kept_failing(names, runs, ids), t) <==> has_text(names, t)
            && !crate::store::loses_result(runs, ids, t),
    decreases names.len(),
{
    let all = kept_failing(names, runs, ids);
    if names.len() > 0 {
        let init = names.drop_last();
        let before = kept_failing(init, runs, ids);
        kept_failing_is(init, runs, ids, t);
        assert(names[names.len() - 1] == names.last());
        if has_text(names, t) {
            let k = choose|k: int| 0 <= k < names.len() && #[trigger] names[k] == t;
            if k < init.len() {
                assert(init[k] == t);
            }
        }
        if has_text(init, t) {
            let k = choose|k: int| 0 <= k < init.len() && #[trigger] init[k] == t;
            assert(names[k] == t);
        }
        if has_text(all, t) {
            let k = choose|k: int| 0 <= k < all.len() && #[trigger] all[k] == t;
            if k < before.len() {
                assert(before[k] == t);
            }
        }
        if has_text(before, t) {
            let k = choose|k: int| 0 <= k < before.len() && #[trigger] before[k] == t;
            assert(all[k] == t);
        }
        if all.len() > before.len() {
            assert(all[all.len() - 1] == names.last());
        }
    }
}

/// The run that holds the latest result of a test.
proof fn holder_is(runs: Seq<StoredRun>, t: Seq<char>)
    ensures
        match crate::store::holder(runs, t) {
            Some(id) => exists|h: int|
                0 <= h < runs.len() && has_key((#[trigger] runs[h]).run.results@, t)
                    && runs[h].run.id@ == id && forall|k: int|
                    h < k < runs.len() ==> !has_key((#[trigger] runs[k]).run.results@, t),
            None => forall|k: int|
                0 <= k < runs.len() ==> !has_key((#[trigger] runs[k]).run.results@, t),
        },
    decreases runs.len(),
{
    if runs.len() > 0 {
        let init = runs.drop_last();
        if has_key(runs.last().run.results@, t) {
            assert(has_key(runs[runs.len() - 1].run.results@, t));
        } else {
            holder_is(init, t);
            if let Some(id) = crate::store::holder(init, t) {
                let h = choose|h: int|
                    0 <= h < init.len() && has_key((#[trigger] init[h]).run.results@, t)
                        && init[h].run.id@ == id && forall|k: int|
                        h < k < init.len() ==> !has_key((#[trigger] init[k]).run.results@, t);
                assert(has_key(runs[h].run.results@, t));
                assert forall|k: int| h < k < runs.len() implies !has_key(
                    (#[trigger] runs[k]).run.results@,
                    t,
                ) by {
                    if k < init.len() {
                        assert(!has_key(init[k].run.results@, t));
                    }
                }
            } else {
                assert forall|k: int| 0 <= k < runs.len() implies !has_key(
                    (#[trigger] runs[k]).run.results@,
                    t,
                ) by {
                    if k < init.len() {
                        assert(!has_key(init[k].run.results@, t));
                    }
                }
            }
        }
    }
}

/// Where no run is going on, none is left out.
proof fn none_going_on(ids: Seq<Seq<char>>, runs: Seq<StoredRun>)
    requires
        forall|i: int| 0 <= i < runs.len() ==> !(#[trigger] runs[i]).in_progress,
    ensures
        with_progress(ids, runs, false) == ids,
    decreases ids.len(),
{
    if ids.len() > 0 {
        none_going_on(ids.drop_last(), runs);
        crate::store::run_index_bounds(runs, ids.last());
        assert(ids.drop_last().push(ids.last()) =~= ids);
    } else {
        assert(with_progress(ids, runs, false) =~= ids);
    }
}

/// Of the first `m` runs, those from `cut` on are kept where the first `cut` are dropped.
proof fn kept_is(runs: Seq<StoredRun>, ids: Seq<Seq<char>>, cut: int, m: int)
    requires
        0 <= cut <= runs.len(),
        0 <= m <= runs.len(),
        ids == stored_names(runs).take(cut),
        forall|i: int, j: int|
            0 <= i < j < runs.len() ==> (#[trigger] runs[i]).run.id@ != (#[trigger] runs[j]).run.id@,
    ensures
        kept_runs(runs.take(m), ids) == (if m <= cut {
            Seq::empty()
        } else {
            runs.subrange(cut, m)
        }),
    decreases m,
{
    if m > 0 {
        kept_is(runs, ids, cut, m - 1);
        assert(runs.take(m).drop_last() =~= runs.take(m - 1));
        let last = runs[m - 1].run.id@;
        if m <= cut {
            assert(ids[m - 1] == last);
        } else {
            if has_text(ids, last) {
                let k = choose|k: int| 0 <= k < ids.len() && #[trigger] ids[k] == last;
                assert(runs[k].run.id@ == runs[m - 1].run.id@);
            }
            assert(runs.subrange(cut, m) =~= runs.subrange(cut, m - 1).push(runs[m - 1])) by {
                if m - 1 == cut {
                    assert(runs.subrange(cut, m - 1) =~= Seq::<StoredRun>::empty());
                }
            }
            if m - 1 <= cut {
                assert(runs.subrange(cut, m - 1) =~= Seq::<StoredRun>::empty());
            }
        }
    } else {
        assert(kept_runs(runs.take(0), ids) =~= Seq::<StoredRun>::empty());
    }
}

impl Command for PruneCommand {
    fn name(&self) -> (r: &str)
        ensures
            r@ == "prune"@,
    {
        "prune"
    }

    fn help(&self) -> (r: &str)
        ensures
            r@ == "Drop older test runs from the repository"@,
    {
        "Drop older test runs from the repository"
    }
}

} // verus!
