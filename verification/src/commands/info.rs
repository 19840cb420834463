//! Showing what is known of a run.

use vstd::prelude::*;
use vstd::string::*;

use crate::commands::Command;
use crate::error::Result;
use crate::machine::{moment_text, show_moment};
use crate::repository::{any_timed, failure_count, nanos_sum, RunMetadata, TestRun};
use crate::store::{asked_run, open_run, run_of, Store, StoredRun};
use crate::text::compose::{cat2, cat3, texts};
use crate::text::number::{count_text, decimal, decimal_int, decimal_text, signed_text};
use crate::time::{seconds_text, seconds_with_millis, Timestamp, MAX_NANOS};
use crate::ui::{outputs, Transcript};

verus! {

broadcast use crate::text::compose::texts_push;

/// Command that shows what is known of a run.
#[derive(Debug)]
pub struct InfoCommand {
    /// Where the project is.
    pub base_path: Option<String>,
    /// The run; the latest one where none is named.
    pub run_id: Option<String>,
}

/// When a run was.
pub open spec fn when_text(t: Timestamp) -> Seq<char> {
    match moment_text(t.seconds, t.nanos) {
        Some(s) => s,
        None => Seq::empty(),
    }
}

/// The lines of what is known besides the results.
pub open spec fn metadata_lines(m: RunMetadata) -> Seq<Seq<char>> {
    (match m.git_commit {
        Some(c) => seq![
            "Git commit: "@ + c@ + (if m.git_dirty == Some(true) {
                " (dirty)"@
            } else {
                Seq::empty()
            }),
        ],
        None => Seq::empty(),
    }) + (match m.command {
        Some(c) => seq!["Command: "@ + c@],
        None => Seq::empty(),
    }) + (match m.concurrency {
        Some(n) => seq!["Concurrency: "@ + decimal(n as nat)],
        None => Seq::empty(),
    }) + (match m.duration {
        Some(d) => seq!["Duration: "@ + seconds_text(d@, 3) + "s"@],
        None => Seq::empty(),
    }) + (match m.exit_code {
        Some(n) => seq!["Exit code: "@ + decimal_int(n as int)],
        None => Seq::empty(),
    })
}

/// What is shown of a run, given when it was.
pub open spec fn info_lines(id: Seq<char>, s: StoredRun, when: Seq<char>) -> Seq<Seq<char>> {
    let r = s.run.results@;
    seq!["Run: "@ + id, "Timestamp: "@ + when] + metadata_lines(s.metadata) + seq![
        "Total tests: "@ + decimal(r.len()),
        "Passed: "@ + decimal((r.len() - failure_count(r)) as nat),
        "Failed: "@ + decimal(failure_count(r)),
    ] + (if any_timed(r) {
        seq!["Total test time: "@ + seconds_text(nanos_sum(r), 3) + "s"@]
    } else {
        Seq::empty()
    })
}

/// The lines of what is known besides the results.
fn push_metadata(out: &mut Vec<String>, m: &RunMetadata)
    ensures
        texts(final(out)@) == texts(old(out)@) + metadata_lines(*m),
{
    if let Some(c) = &m.git_commit {
        let mut line: String = cat2("Git commit: ", c.as_str());
        if let Some(true) = m.git_dirty {
            line.append(" (dirty)");
        }
        assert(line@ =~= "Git commit: "@ + c@ + (if m.git_dirty == Some(true) {
            " (dirty)"@
        } else {
            Seq::empty()
        }));
        out.push(line);
    }
    if let Some(c) = &m.command {
        out.push(cat2("Command: ", c.as_str()));
    }
    if let Some(n) = m.concurrency {
        out.push(cat2("Concurrency: ", decimal_text(n as u128).as_str()));
    }
    if let Some(d) = m.duration {
        out.push(cat3("Duration: ", seconds_with_millis(d).as_str(), "s"));
    }
    if let Some(n) = m.exit_code {
        out.push(cat2("Exit code: ", signed_text(n as i64).as_str()));
    }
    assert(texts(out@) =~= texts(old(out)@) + metadata_lines(*m));
}

/// What is shown of a run, given when it was.
pub fn render_info(id: &str, s: &StoredRun, when: &str) -> (r: Vec<String>)
    requires
        nanos_sum(s.run.results@) <= MAX_NANOS,
    ensures
        texts(r@) == info_lines(id@, *s, when@),
{
    let run: &TestRun = &s.run;
    let mut out: Vec<String> = Vec::new();
    out.push(cat2("Run: ", id));
    out.push(cat2("Timestamp: ", when));
    assert(texts(out@) =~= seq!["Run: "@ + id@, "Timestamp: "@ + when@]);
    push_metadata(&mut out, &s.metadata);
    out.push(cat2("Total tests: ", count_text(run.total_tests()).as_str()));
    out.push(cat2("Passed: ", count_text(run.count_successes()).as_str()));
    out.push(cat2("Failed: ", count_text(run.count_failures()).as_str()));
    if let Some(d) = run.total_duration() {
        out.push(cat3("Total test time: ", seconds_with_millis(d).as_str(), "s"));
    }
    assert(texts(out@) =~= info_lines(id@, *s, when@));
    out
}

impl InfoCommand {
    /// A command for a run.
    pub fn new(base_path: Option<String>, run_id: Option<String>) -> (r: Self)
        ensures
            r == (InfoCommand { base_path, run_id }),
    {
        InfoCommand { base_path, run_id }
    }

    /// Shows what is known of the run.
    pub fn execute(&self, store: &Store, ui: &mut Transcript) -> (r: Result<i32>)
        requires
            asked_run(store.runs@, self.run_id) matches Ok(id) ==> nanos_sum(
                run_of(store.runs@, id).run.results@,
            ) <= MAX_NANOS,
        ensures
            match asked_run(store.runs@, self.run_id) {
                Err(f) => r matches Err(e) && e@ == f && final(ui)@ == old(ui)@,
                Ok(id) => {
                    let s = run_of(store.runs@, id);
                    &&& r matches Ok(code) && code == 0
                    &&& final(ui)@ == old(ui)@ + outputs(
                        info_lines(id, s, when_text(s.run.timestamp)),
                    )
                },
            },
    {
        let (id, run): (crate::repository::RunId, &TestRun) = match open_run(store, &self.run_id) {
            Ok(found) => found,
            Err(e) => {
                return Err(e);
            },
        };
        let when: String = match show_moment(run.timestamp.seconds, run.timestamp.nanos) {
            Some(s) => s,
            None => String::new(),
        };
        assert(when@ =~= when_text(run.timestamp));
        match store.find(id.as_str()) {
            Some(s) => {
                let lines: Vec<String> = render_info(id.as_str(), s, when.as_str());
                ui.output_all(&lines);
                Ok(0)
            },
            None => Err(crate::error::Error::TestRunNotFound(id.as_str().to_owned())),
        }
    }
}

impl Command for InfoCommand {
    fn name(&self) -> (r: &str)
        ensures
            r@ == "info"@,
    {
        "info"
    }

    fn help(&self) -> (r: &str)
        ensures
            r@ == "Show detailed information about a test run"@,
    {
        "Show detailed information about a test run"
    }
}

} // verus!
