//! Showing the tests that change between passing and failing.

use vstd::prelude::*;
use vstd::string::*;

use crate::collection::{entry_of, has_key};
use crate::commands::Command;
use crate::error::Result;
use crate::flakiness::{change_limit, failing_tests_are_ranked, history_of, is_ranking, ranked_tests, records, Record, TestFlakiness};
use crate::gather::gathered;
use crate::repository::is_failure;
use crate::store::{run_refs, Store, StoredRun};
use crate::text::compose::{cat3, cat7, texts};
use crate::text::number::{count_text, decimal};
use crate::text::scan::has_suffix;
use crate::time::{pad_left, padded_left, percent, percent_text};
use crate::ui::{outputs, Transcript};

verus! {

broadcast use crate::text::compose::texts_push;

/// Command that shows the tests that change most often between passing and failing.
#[derive(Debug)]
pub struct FlakyCommand {
    /// Where the project is.
    pub base_path: Option<String>,
    /// How many tests to show.
    pub count: usize,
    /// How many results a test must have.
    pub min_runs: usize,
}

/// The row of a test.
pub open spec fn row_text(r: Record) -> Seq<char> {
    "  "@ + padded_left(percent_text(r.transitions, change_limit(r.runs)), 5) + "%  "@ + padded_left(
        percent_text(
            r.failures,
            if r.runs == 0 {
                1
            } else {
                r.runs
            },
        ),
        5,
    ) + "%  "@ + padded_left(decimal(r.transitions), 11) + "  "@ + padded_left(decimal(r.runs), 4)
        + "  "@ + r.name
}

/// The row of the test at a position.
pub open spec fn row_part(list: Seq<Record>) -> spec_fn(int) -> Seq<Seq<char>> {
    |i: int| seq![row_text(list[i])]
}

/// What is shown of ranked tests.
pub open spec fn ranking_lines(list: Seq<Record>, count: nat, min_runs: nat) -> Seq<Seq<char>> {
    let n = if count < list.len() {
        count
    } else {
        list.len()
    };
    if list.len() == 0 {
        seq![
            "No flaky tests found (need at least "@ + decimal(min_runs)
                + " recorded runs per test)"@,
        ]
    } else {
        seq![
            "Flakiest "@ + decimal(n) + " test(s) (min "@ + decimal(min_runs) + " runs, "@
                + decimal(list.len()) + " candidate(s)):"@,
            "  flake%  fail%  transitions  runs  test"@,
        ] + gathered(row_part(list), n)
    }
}

/// Whether `lines` is what a command shows of runs.
pub open spec fn is_flaky_list(c: FlakyCommand, window: Seq<&StoredRun>, lines: Seq<Seq<char>>) -> bool {
    exists|list: Seq<Record>| #[trigger]
        is_ranking(list, window, ranked_tests(window, c.min_runs as nat, false)) && lines
            == ranking_lines(list, c.count as nat, c.min_runs as nat)
}

/// Of the tests that failed and have enough results, at most as many are shown as are asked for, and
/// all of them where there are no more: a test is named at the end of its row. Where there is none,
/// that is said.
pub proof fn failing_tests_are_shown(
    c: FlakyCommand,
    window: Seq<&StoredRun>,
    lines: Seq<Seq<char>>,
    t: Seq<char>,
)
    requires
        is_flaky_list(c, window, lines),
    ensures
        lines.len() <= c.count + 2,
        ({
            let fails = history_of(window, t).len() >= c.min_runs && exists|i: int|
                0 <= i < window.len() && has_key((#[trigger] window[i]).run.results@, t)
                    && is_failure(entry_of(window[i].run.results@, t).status);
            &&& fails ==> lines.len() >= 2
            &&& fails && lines.len() < c.count + 2 ==> exists|k: int|
                2 <= k < lines.len() && has_suffix(#[trigger] lines[k], "  "@ + t)
        }),
{
    let list = choose|list: Seq<Record>| #[trigger]
        is_ranking(list, window, ranked_tests(window, c.min_runs as nat, false)) && lines
            == ranking_lines(list, c.count as nat, c.min_runs as nat);
    let n: nat = if c.count < list.len() {
        c.count as nat
    } else {
        list.len()
    };
    one_row_each(list, n);
    failing_tests_are_ranked(list, window, c.min_runs as nat, false, t);
    if history_of(window, t).len() >= c.min_runs && exists|i: int|
        0 <= i < window.len() && has_key((#[trigger] window[i]).run.results@, t) && is_failure(
            entry_of(window[i].run.results@, t).status,
        ) {
        let k = choose|k: int| 0 <= k < list.len() && (#[trigger] list[k]).name == t;
        if lines.len() < c.count + 2 {
            assert(n == list.len());
            let row = row_text(list[k]);
            assert(gathered(row_part(list), n)[k] == row);
            assert(lines[k + 2] == row);
            assert(row.skip(row.len() - ("  "@ + t).len()) =~= "  "@ + t);
        }
    }
}

proof fn one_row_each(list: Seq<Record>, n: nat)
    ensures
        gathered(row_part(list), n).len() == n,
        forall|i: int|
            0 <= i < n ==> #[trigger] gathered(row_part(list), n)[i] == row_text(list[i]),
    decreases n,
{
    if n > 0 {
        one_row_each(list, (n - 1) as nat);
    }
}

/// The row of a test.
fn render_row(f: &TestFlakiness) -> (s: String)
    ensures
        s@ == row_text(f@),
{
    let limit: usize = if f.runs < 2 {
        1
    } else {
        f.runs - 1
    };
    let runs: usize = if f.runs == 0 {
        1
    } else {
        f.runs
    };
    let changes: String = percent(f.transitions as u128, limit as u128);
    let failures: String = percent(f.failures as u128, runs as u128);
    let mut s: String = cat3("  ", pad_left(changes.as_str(), 5).as_str(), "%  ");
    s.append(pad_left(failures.as_str(), 5).as_str());
    s.append("%  ");
    s.append(pad_left(count_text(f.transitions).as_str(), 11).as_str());
    s.append("  ");
    s.append(pad_left(count_text(f.runs).as_str(), 4).as_str());
    s.append("  ");
    s.append(f.test_id.as_str());
    s
}

impl FlakyCommand {
    /// A command that shows at most `count` tests with at least `min_runs` results.
    pub fn new(base_path: Option<String>, count: usize, min_runs: usize) -> (r: Self)
        ensures
            r == (FlakyCommand { base_path, count, min_runs }),
    {
        FlakyCommand { base_path, count, min_runs }
    }

    /// Shows the tests.
    pub fn execute(&self, store: &Store, ui: &mut Transcript) -> (r: Result<i32>)
        ensures
            r matches Ok(code) && code == 0,
            exists|lines: Seq<Seq<char>>| #[trigger]
                is_flaky_list(*self, run_refs(store.runs@), lines) && final(ui)@ == old(ui)@
                    + outputs(lines),
    {
        let stats: Vec<TestFlakiness> = store.get_flakiness(self.min_runs);
        let ghost list = records(stats@);
        let mut out: Vec<String> = Vec::new();
        let total: usize = stats.len();
        if total == 0 {
            out.push(
                cat3(
                    "No flaky tests found (need at least ",
                    count_text(self.min_runs).as_str(),
                    " recorded runs per test)",
                ),
            );
        } else {
            let n: usize = if self.count < total {
                self.count
            } else {
                total
            };
            out.push(
                cat7(
                    "Flakiest ",
                    count_text(n).as_str(),
                    " test(s) (min ",
                    count_text(self.min_runs).as_str(),
                    " runs, ",
                    count_text(total).as_str(),
                    " candidate(s)):",
                ),
            );
            out.push("  flake%  fail%  transitions  runs  test".to_owned());
            let ghost head = texts(out@);
            for i in 0..n
                invariant
                    n <= stats@.len(),
                    list == records(stats@),
                    texts(out@) =~= head + gathered(row_part(list), i as nat),
            {
                out.push(render_row(&stats[i]));
            }
        }
        assert(texts(out@) =~= ranking_lines(list, self.count as nat, self.min_runs as nat));
        assert(is_flaky_list(*self, run_refs(store.runs@), texts(out@)));
        ui.output_all(&out);
        Ok(0)
    }
}

impl Command for FlakyCommand {
    fn name(&self) -> (r: &str)
        ensures
            r@ == "flaky"@,
    {
        "flaky"
    }

    fn help(&self) -> (r: &str)
        ensures
            r@ == "Show tests that flip between pass and fail across recorded runs"@,
    {
        "Show tests that flip between pass and fail across recorded runs"
    }
}

} // verus!
