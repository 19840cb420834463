//! Showing what tests said in a run.

use vstd::prelude::*;
use vstd::string::*;

use crate::commands::Command;
use crate::error::Result;
use crate::gather::gathered;
use crate::glob::{matches_any, matches_any_pattern, sources, Glob};
use crate::repository::{status_text, TestResult, TestRun};
use crate::store::{asked_run, open_run, run_of, Store};
use crate::text::compose::{cat2, cat3, cat4, join, joined, texts};
use crate::time::{seconds_text, seconds_with_millis};
use crate::ui::{outputs, Line, Transcript};

verus! {

broadcast use crate::text::compose::texts_push;

/// Command that shows what tests said in a run.
#[derive(Debug)]
pub struct LogCommand {
    /// Where the project is.
    pub base_path: Option<String>,
    /// The run; the latest one where none is named.
    pub run_id: Option<String>,
    /// Patterns of which the name of a test must match one, where there are any.
    pub test_patterns: Vec<Glob>,
}

/// The results of tests whose names match.
pub open spec fn matching(s: Seq<TestResult>, patterns: Seq<Seq<char>>) -> Seq<TestResult>
    decreases s.len(),
{
    if s.len() == 0 {
        Seq::empty()
    } else {
        let before = matching(s.drop_last(), patterns);
        if matches_any(patterns, s.last().test_id@) {
            before.push(s.last())
        } else {
            before
        }
    }
}

/// A result is shown exactly if it is one of the run and its name matches one of the patterns.
pub proof fn matching_results_are_shown(
    s: Seq<TestResult>,
    patterns: Seq<Seq<char>>,
    r: TestResult,
)
    ensures
        matching(s, patterns).contains(r) <==> s.contains(r) && matches_any(patterns, r.test_id@),
        matching(s, patterns).len() <= s.len(),
    decreases s.len(),
{
    let all = matching(s, patterns);
    if s.len() > 0 {
        let init = s.drop_last();
        let before = matching(init, patterns);
        matching_results_are_shown(init, patterns, r);
        assert(s[s.len() - 1] == s.last());
        if s.contains(r) {
            let i = choose|i: int| 0 <= i < s.len() && s[i] == r;
            if i < init.len() {
                assert(init[i] == r);
            }
        }
        if init.contains(r) {
            let i = choose|i: int| 0 <= i < init.len() && init[i] == r;
            assert(s[i] == r);
        }
        if all.contains(r) {
            let i = choose|i: int| 0 <= i < all.len() && all[i] == r;
            if i < before.len() {
                assert(before[i] == r);
            }
        }
        if before.contains(r) {
            let i = choose|i: int| 0 <= i < before.len() && before[i] == r;
            assert(all[i] == r);
        }
        if all.len() > before.len() {
            assert(all[all.len() - 1] == s.last());
        }
    }
}

/// What is shown of one result.
pub open spec fn result_lines(t: TestResult) -> Seq<Seq<char>> {
    seq!["test: "@ + t.test_id@, "status: "@ + status_text(t.status)] + (match t.duration {
        Some(d) => seq!["duration: "@ + seconds_text(d@, 3) + "s"@],
        None => Seq::empty(),
    }) + (match t.details {
        Some(d) => seq!["---"@, d@],
        None => Seq::empty(),
    })
}

/// What is shown of the result at an index: an empty line stands between two results.
pub open spec fn log_part(m: Seq<TestResult>) -> spec_fn(int) -> Seq<Seq<char>> {
    |i: int|
        (if i > 0 {
            seq![""@]
        } else {
            Seq::empty()
        }) + result_lines(m[i])
}

/// What is shown of a run.
pub open spec fn log_lines(run: TestRun, m: Seq<TestResult>) -> Seq<Seq<char>> {
    (match run.interruption {
        Some(why) => seq![
            "WARNING: Stream interrupted ("@ + why@ + "), results may be incomplete"@,
        ],
        None => Seq::empty(),
    }) + gathered(log_part(m), m.len())
}

/// What is said where no test matches.
pub open spec fn nothing_line(patterns: Seq<Seq<char>>, run: Seq<char>) -> Seq<char> {
    if patterns.len() == 0 {
        "No tests found in run "@ + run
    } else {
        "No tests matching '"@ + joined(patterns, "', '"@) + "' found in run "@ + run
    }
}

/// Appends what is shown of one result.
fn push_result(t: &TestResult, out: &mut Vec<String>)
    ensures
        texts(final(out)@) == texts(old(out)@) + result_lines(*t),
{
    let ghost before = texts(out@);
    out.push(cat2("test: ", t.test_id.as_str()));
    out.push(cat2("status: ", t.status.text()));
    let ghost head = seq!["test: "@ + t.test_id@, "status: "@ + status_text(t.status)];
    assert(texts(out@) =~= before + head);
    if let Some(d) = t.duration {
        out.push(cat3("duration: ", seconds_with_millis(d).as_str(), "s"));
    }
    if let Some(d) = &t.details {
        out.push("---".to_owned());
        out.push(d.clone());
    }
    assert(texts(out@) =~= before + result_lines(*t));
}

impl LogCommand {
    /// A command for a run and patterns.
    pub fn new(base_path: Option<String>, run_id: Option<String>, test_patterns: Vec<Glob>) -> (r:
        Self)
        ensures
            r == (LogCommand { base_path, run_id, test_patterns }),
    {
        LogCommand { base_path, run_id, test_patterns }
    }

    /// The results of tests whose names match.
    fn find_matching<'a>(&self, run: &'a TestRun) -> (r: Vec<&'a TestResult>)
        ensures
            r@ == crate::store::refs(matching(run.results@, sources(self.test_patterns@))),
    {
        let v: &'a Vec<TestResult> = run.results.entries();
        let ghost ps = sources(self.test_patterns@);
        let mut r: Vec<&'a TestResult> = Vec::new();
        assert(r@ =~= crate::store::refs(matching(v@.take(0), ps)));
        for i in 0..v.len()
            invariant
                v@ == run.results@,
                ps == sources(self.test_patterns@),
                r@ == crate::store::refs(matching(v@.take(i as int), ps)),
        {
            assert(v@.take(i + 1).drop_last() =~= v@.take(i as int));
            if matches_any_pattern(v[i].test_id.as_str(), &self.test_patterns) {
                r.push(&v[i]);
            }
            assert(r@ =~= crate::store::refs(matching(v@.take(i + 1), ps)));
        }
        assert(v@.take(v@.len() as int) =~= v@);
        r
    }

    /// What is said where no test matches.
    fn render_nothing(&self, run: &str) -> (s: String)
        ensures
            s@ == nothing_line(sources(self.test_patterns@), run@),
    {
        let n: usize = self.test_patterns.len();
        if n == 0 {
            return cat2("No tests found in run ", run);
        }
        let mut names: Vec<String> = Vec::new();
        for i in 0..n
            invariant
                n == self.test_patterns@.len(),
                texts(names@) =~= sources(self.test_patterns@).take(i as int),
        {
            names.push(self.test_patterns[i].as_str().to_owned());
        }
        assert(texts(names@) =~= sources(self.test_patterns@));
        cat4("No tests matching '", join(&names, "', '").as_str(), "' found in run ", run)
    }

    /// Shows what the tests of a run said whose names match.
    pub fn execute(&self, store: &Store, ui: &mut Transcript) -> (r: Result<i32>)
        ensures
            match asked_run(store.runs@, self.run_id) {
                Err(f) => r matches Err(e) && e@ == f && final(ui)@ == old(ui)@,
                Ok(name) => {
                    let run = run_of(store.runs@, name).run;
                    let m = matching(run.results@, sources(self.test_patterns@));
                    &&& r matches Ok(code)
                    &&& code == (if m.len() == 0 {
                        1i32
                    } else {
                        0
                    })
                    &&& final(ui)@ == old(ui)@ + (if m.len() == 0 {
                        seq![Line::Error(nothing_line(sources(self.test_patterns@), name))]
                    } else {
                        outputs(log_lines(run, m))
                    })
                },
            },
    {
        let (id, run): (crate::repository::RunId, &TestRun) = match open_run(store, &self.run_id) {
            Ok(found) => found,
            Err(e) => {
                return Err(e);
            },
        };
        let found: Vec<&TestResult> = self.find_matching(run);
        let ghost m = matching(run.results@, sources(self.test_patterns@));
        assert(found@.len() == m.len());
        if found.len() == 0 {
            let line: String = self.render_nothing(id.as_str());
            ui.error(line.as_str());
            assert(ui@ =~= old(ui)@ + seq![Line::Error(line@)]);
            return Ok(1);
        }
        let mut out: Vec<String> = Vec::new();
        if let Some(why) = &run.interruption {
            out.push(
                cat3(
                    "WARNING: Stream interrupted (",
                    why.as_str(),
                    "), results may be incomplete",
                ),
            );
        }
        let ghost head = texts(out@);
        for i in 0..found.len()
            invariant
                found@ == crate::store::refs(m),
                texts(out@) =~= head + gathered(log_part(m), i as nat),
        {
            assert(*found@[i as int] == m[i as int]);
            if i > 0 {
                out.push("".to_owned());
            }
            push_result(found[i], &mut out);
        }
        assert(texts(out@) =~= log_lines(*run, m));
        ui.output_all(&out);
        Ok(0)
    }
}

impl Command for LogCommand {
    fn name(&self) -> (r: &str)
        ensures
            r@ == "log"@,
    {
        "log"
    }

    fn help(&self) -> (r: &str)
        ensures
            r@ == "Show logs for individual tests from a test run"@,
    {
        "Show logs for individual tests from a test run"
    }
}

} // verus!
