//! Running the tests of a run again.

use vstd::prelude::*;
use vstd::string::*;

use crate::commands::run::{plain_run, run_step, selected_names, RunCommand, RunEvent, RunPhase, RunState, RunTask};
use crate::commands::stress::{copy_list, optional_lists};
use crate::commands::Command;
use crate::error::{Error, Failure, Result};
use crate::ordering::TestOrder;
use crate::repository::{copy_text, test_names, RunId, TestId};
use crate::store::{asked_run, open_run, run_of, Store, StoredRun};
use crate::text::compose::{cat2, cat4, join, joined, texts};
use crate::text::number::{count_text, decimal};
use crate::ui::{outputs, Transcript};

verus! {

broadcast use {crate::text::compose::texts_push, crate::repository::test_names_push};

/// Command that runs the tests of a run again.
#[derive(Debug)]
pub struct RerunCommand {
    /// Where the project is.
    pub base_path: Option<String>,
    /// The run; the latest one where none is named.
    pub run_id: Option<String>,
}

/// What is said of running the tests of a run again.
pub open spec fn rerun_lines(id: Seq<char>, s: StoredRun) -> Seq<Seq<char>> {
    seq!["Re-running "@ + decimal(s.order@.len()) + " test(s) from run "@ + id] + (
    match s.metadata.test_args {
        Some(v) => if v@.len() > 0 {
            seq!["With test args: "@ + joined(texts(v@), " "@)]
        } else {
            Seq::empty()
        },
        None => Seq::empty(),
    })
}

/// Whether a command runs the tests of a run again.
pub open spec fn is_rerun(r: RerunCommand, s: StoredRun, c: RunCommand) -> bool {
    &&& selected_names(c.test_ids_override) == Some(test_names(s.order@))
    &&& optional_lists(c.test_args) == optional_lists(s.metadata.test_args)
    &&& c == (RunCommand {
        test_ids_override: c.test_ids_override,
        test_args: c.test_args,
        test_order: Some(TestOrder::Discovery),
        ..plain_run(r.base_path)
    })
}

/// Running the tests of a run again runs exactly those tests, each as often and in the order in
/// which they were run, with the same arguments: whatever order is configured and however many
/// workers there are, they are what is run once the number of workers is known.
pub proof fn rerun_runs_the_recorded_tests(
    r: RerunCommand,
    s: StoredRun,
    c: RunCommand,
    state: RunState,
    configured: Option<String>,
    workers: Option<usize>,
    cpus: nat,
)
    requires
        is_rerun(r, s, c),
        state.phase == RunPhase::Opening,
    ensures
        ({
            let opened = run_step(c, state, RunEvent::Opened(configured), cpus);
            let asked = run_step(c, opened.state, RunEvent::Concurrency(workers), cpus);
            &&& asked.task matches Ok(RunTask::Execute(_, tests))
            &&& tests == Some(test_names(s.order@))
        }),
        optional_lists(c.test_args) == optional_lists(s.metadata.test_args),
        c.base_path == r.base_path,
{
    let opened = run_step(c, state, RunEvent::Opened(configured), cpus);
    assert(opened.task == Ok::<RunTask, Failure>(RunTask::AskConcurrency));
    assert(opened.state.tests == Some(test_names(s.order@)));
}

impl RerunCommand {
    /// A command for a run.
    pub fn new(base_path: Option<String>, run_id: Option<String>) -> (r: Self)
        ensures
            r == (RerunCommand { base_path, run_id }),
    {
        RerunCommand { base_path, run_id }
    }

    /// The command that runs the tests of the run again: in the order in which they were run, and
    /// with the arguments that were given.
    pub fn plan(&self, store: &Store, ui: &mut Transcript) -> (r: Result<RunCommand>)
        ensures
            match asked_run(store.runs@, self.run_id) {
                Err(f) => r matches Err(e) && e@ == f && final(ui)@ == old(ui)@,
                Ok(id) => {
                    let s = run_of(store.runs@, id);
                    if s.order@.len() == 0 {
                        r matches Err(e) && e@ == Failure::Other(
                            "Run "@ + id + " has no recorded tests to re-run"@,
                        ) && final(ui)@ == old(ui)@
                    } else {
                        &&& final(ui)@ == old(ui)@ + outputs(rerun_lines(id, s))
                        &&& r matches Ok(c)
                        &&& is_rerun(*self, s, c)
                    }
                },
            },
    {
        let id: RunId = match open_run(store, &self.run_id) {
            Ok((id, _)) => id,
            Err(e) => {
                return Err(e);
            },
        };
        let s: &StoredRun = match store.find(id.as_str()) {
            Some(s) => s,
            None => {
                return Err(Error::TestRunNotFound(id.as_str().to_owned()));
            },
        };
        let n: usize = s.order.len();
        if n == 0 {
            return Err(
                Error::Other(
                    crate::text::compose::cat3(
                        "Run ",
                        id.as_str(),
                        " has no recorded tests to re-run",
                    ),
                ),
            );
        }
        let mut out: Vec<String> = Vec::new();
        out.push(
            cat4("Re-running ", count_text(n).as_str(), " test(s) from run ", id.as_str()),
        );
        if let Some(v) = &s.metadata.test_args {
            if v.len() > 0 {
                out.push(cat2("With test args: ", join(v, " ").as_str()));
            }
        }
        assert(texts(out@) =~= rerun_lines(id@, *s));
        ui.output_all(&out);
        let mut tests: Vec<TestId> = Vec::new();
        for i in 0..n
            invariant
                n == s.order@.len(),
                test_names(tests@) =~= test_names(s.order@).take(i as int),
        {
            tests.push(s.order[i].copy());
        }
        assert(test_names(tests@) =~= test_names(s.order@));
        let mut c: RunCommand = RunCommand::new(copy_text(&self.base_path));
        c.test_ids_override = Some(tests);
        c.test_args = copy_list(&s.metadata.test_args);
        c.test_order = Some(TestOrder::Discovery);
        Ok(c)
    }
}

/// Running the tests of a run again keeps their order: once the repository is open, the tests to
/// run are those that were named, as they were named.
pub proof fn recorded_order_is_kept(
    c: RunCommand,
    state: RunState,
    configured: Option<String>,
    cpus: nat,
)
    requires
        state.phase == RunPhase::Opening,
        c.test_ids_override is Some,
        c == (RunCommand {
            test_ids_override: c.test_ids_override,
            test_args: c.test_args,
            test_order: Some(TestOrder::Discovery),
            ..plain_run(c.base_path)
        }),
    ensures
        run_step(c, state, RunEvent::Opened(configured), cpus).state.tests == selected_names(
            c.test_ids_override,
        ),
        run_step(c, state, RunEvent::Opened(configured), cpus).task == Ok::<RunTask, Failure>(
            RunTask::AskConcurrency,
        ),
{
}

impl Command for RerunCommand {
    fn name(&self) -> (r: &str)
        ensures
            r@ == "rerun"@,
    {
        "rerun"
    }

    fn help(&self) -> (r: &str)
        ensures
            r@
                == "Re-run exactly the tests of a previous run, in the same order with the same args"@,
    {
        "Re-run exactly the tests of a previous run, in the same order with the same args"
    }
}

} // verus!
