//! Running tests and recording the results.
//!
//! What is to be done next is decided here; doing it, that is opening the repository, listing and
//! running tests, is left to the caller, who is handed one action after the other and hands back
//! what came of it.

use vstd::prelude::*;
use vstd::string::*;

use crate::commands::starts::{expand_starts, keep_starts, outputs_join, starts, with_starts};
use crate::commands::Command;
use crate::config::timeout::TimeoutSetting;
use crate::error::{Error, Failure, Result};
use crate::machine::cpu_count;
use crate::ordering::{parsed_order, TestOrder};
use crate::pattern::{regex_error, regex_matches, Regexp};
use crate::repository::{test_names, RunId, TestId};
use crate::text::compose::{cat3, cat4, texts};
use crate::text::number::{count_text, decimal};
use crate::text::order::text_eq;
use crate::text::scan::{has_prefix, has_text};
use crate::time::Duration;
use crate::ui::{outputs, Line, Transcript};

verus! {

broadcast use crate::repository::test_names_push;

/// What came of running tests.
#[derive(Debug)]
pub struct CliRunOutput {
    /// The exit code, zero for success.
    pub exit_code: i32,
    /// The run that was recorded, where there is one.
    pub run_id: Option<RunId>,
}

impl CliRunOutput {
    /// What comes of ending without a run.
    pub fn no_run(exit_code: i32) -> (r: Self)
        ensures
            r == (CliRunOutput { exit_code, run_id: None }),
    {
        CliRunOutput { exit_code, run_id: None }
    }
}

/// Command that runs tests and records the results.
#[derive(Debug)]
pub struct RunCommand {
    /// Where the project is.
    pub base_path: Option<String>,
    /// Whether to run only the tests that fail.
    pub failing_only: bool,
    /// Whether to create a repository where there is none.
    pub force_init: bool,
    /// Whether tests that are not run keep failing.
    pub partial: bool,
    /// Whether to write a configuration where there is none.
    pub auto: bool,
    /// A file with the tests to run.
    pub load_list: Option<String>,
    /// How many workers to use; zero for as many as there are processors.
    pub concurrency: Option<usize>,
    /// Whether to run again until a test fails.
    pub until_failure: bool,
    /// How often to run at most.
    pub max_iterations: Option<usize>,
    /// Whether each test gets a process of its own.
    pub isolated: bool,
    /// Whether to pass the stream of results on.
    pub subunit: bool,
    /// Whether to show the output of tests that pass.
    pub all_output: bool,
    /// Patterns of which a test must match one.
    pub test_filters: Option<Vec<String>>,
    /// Starts of names of which a test must have one; they may be abbreviated.
    pub starting_with: Option<Vec<String>>,
    /// Further arguments for the test command.
    pub test_args: Option<Vec<String>>,
    /// The tests to run, in place of those that the command lists.
    pub test_ids_override: Option<Vec<TestId>>,
    /// The timeout of each test.
    pub test_timeout: TimeoutSetting,
    /// The timeout of the run.
    pub max_duration: TimeoutSetting,
    /// How long a test may stay silent.
    pub no_output_timeout: Option<Duration>,
    /// How often the tests may be started again.
    pub max_restarts: Option<usize>,
    /// The order of the tests; the configured one where there is none.
    pub test_order: Option<TestOrder>,
}

/// A command that sets nothing but the path.
pub open spec fn plain_run(base_path: Option<String>) -> RunCommand {
    RunCommand {
        base_path,
        failing_only: false,
        force_init: false,
        partial: false,
        auto: false,
        load_list: None,
        concurrency: None,
        until_failure: false,
        max_iterations: None,
        isolated: false,
        subunit: false,
        all_output: false,
        test_filters: None,
        starting_with: None,
        test_args: None,
        test_ids_override: None,
        test_timeout: TimeoutSetting::Disabled,
        max_duration: TimeoutSetting::Disabled,
        no_output_timeout: None,
        max_restarts: None,
        test_order: None,
    }
}

impl Default for RunCommand {
    fn default() -> (r: RunCommand)
        ensures
            r == plain_run(None),
    {
        RunCommand::new(None)
    }
}

/// How tests are run.
#[derive(Clone, Copy, Debug, PartialEq, Eq, Structural)]
pub enum ExecutionMode {
    /// The stream of results is passed on.
    Subunit,
    /// Each test has a process of its own.
    Isolated,
    /// Several workers share the tests.
    Parallel(usize),
    /// One process runs all tests.
    Serial,
}

/// What is to be done next.
#[derive(Debug)]
pub enum RunAction {
    /// Write a configuration.
    AutoConfigure,
    /// Open the repository and read the configuration; create the repository where that is asked
    /// for.
    OpenRepository {
        /// Whether to create it.
        create: bool,
    },
    /// Tell which tests fail.
    ReadFailing,
    /// Read the tests that a file lists.
    ReadList(String),
    /// List the tests that the test command knows.
    ListTests,
    /// Put tests in order.
    OrderTests {
        /// The order.
        order: TestOrder,
        /// The tests.
        tests: Vec<TestId>,
        /// Whether the tests that fail matter.
        with_failing: bool,
    },
    /// Ask the configured command how many workers to use.
    AskConcurrency,
    /// Run tests and record the results; all tests where none are named.
    Execute {
        /// How to run them.
        mode: ExecutionMode,
        /// The tests.
        selection: Option<Vec<TestId>>,
    },
    /// End.
    Finish(CliRunOutput),
}

/// What came of an action.
#[derive(Debug)]
pub enum RunEvent {
    /// Whether there is a configuration.
    Started(bool),
    /// A configuration was written, with this exit code.
    AutoConfigured(i32),
    /// The repository was opened; the configured order of tests.
    Opened(Option<String>),
    /// Tests: those that fail, those of a file, those that the command knows, or those put in
    /// order.
    Tests(Vec<TestId>),
    /// How many workers the configured command asks for.
    Concurrency(Option<usize>),
    /// Tests were run and recorded.
    Executed {
        /// The exit code.
        exit_code: i32,
        /// The run.
        run_id: RunId,
    },
}

/// What is waited for.
#[derive(Clone, Copy, Debug, PartialEq, Eq, Structural)]
pub enum RunPhase {
    /// To start.
    Start,
    /// The configuration to be written.
    AutoConfiguring,
    /// The repository to be opened.
    Opening,
    /// The tests that fail.
    ReadingFailing,
    /// The tests of a file.
    ReadingList,
    /// The known tests, to filter them.
    ListingForFilter,
    /// The known tests, to take those with given starts.
    ListingForStart,
    /// The known tests, to order them.
    ListingForOrder,
    /// The tests in order.
    Sequencing,
    /// The number of workers.
    AskingConcurrency,
    /// The known tests, to run each by itself.
    ListingForIsolation,
    /// The tests to be run.
    Executing,
    /// Nothing.
    Finished,
}

/// How far a command has come.
#[derive(Debug)]
pub struct RunProgress {
    /// What is waited for.
    pub phase: RunPhase,
    /// The tests to run, where they have been selected.
    pub tests: Option<Vec<TestId>>,
    /// The configured order.
    pub configured_order: Option<String>,
    /// How tests are run.
    pub mode: ExecutionMode,
    /// How often tests have been run, counting from one.
    pub iteration: usize,
}

/// How far a command has come, as plain values.
pub struct RunState {
    /// See [`RunProgress::phase`].
    pub phase: RunPhase,
    /// See [`RunProgress::tests`].
    pub tests: Option<Seq<Seq<char>>>,
    /// See [`RunProgress::configured_order`].
    pub configured_order: Option<Seq<char>>,
    /// See [`RunProgress::mode`].
    pub mode: ExecutionMode,
    /// See [`RunProgress::iteration`].
    pub iteration: nat,
}

/// The names of selected tests.
pub open spec fn selected_names(tests: Option<Vec<TestId>>) -> Option<Seq<Seq<char>>> {
    match tests {
        Some(v) => Some(test_names(v@)),
        None => None,
    }
}

impl View for RunProgress {
    type V = RunState;

    open spec fn view(&self) -> RunState {
        RunState {
            phase: self.phase,
            tests: selected_names(self.tests),
            configured_order: match self.configured_order {
                Some(s) => Some(s@),
                None => None,
            },
            mode: self.mode,
            iteration: self.iteration as nat,
        }
    }
}

/// What is to be done next, as plain values.
pub enum RunTask {
    /// See [`RunAction::AutoConfigure`].
    AutoConfigure,
    /// See [`RunAction::OpenRepository`].
    OpenRepository(bool),
    /// See [`RunAction::ReadFailing`].
    ReadFailing,
    /// See [`RunAction::ReadList`].
    ReadList(Seq<char>),
    /// See [`RunAction::ListTests`].
    ListTests,
    /// See [`RunAction::OrderTests`].
    OrderTests(TestOrder, Seq<Seq<char>>, bool),
    /// See [`RunAction::AskConcurrency`].
    AskConcurrency,
    /// See [`RunAction::Execute`].
    Execute(ExecutionMode, Option<Seq<Seq<char>>>),
    /// See [`RunAction::Finish`].
    Finish(i32, Option<Seq<char>>),
}

impl View for RunAction {
    type V = RunTask;

    open spec fn view(&self) -> RunTask {
        match self {
            RunAction::AutoConfigure => RunTask::AutoConfigure,
            RunAction::OpenRepository { create } => RunTask::OpenRepository(*create),
            RunAction::ReadFailing => RunTask::ReadFailing,
            RunAction::ReadList(s) => RunTask::ReadList(s@),
            RunAction::ListTests => RunTask::ListTests,
            RunAction::OrderTests { order, tests, with_failing } => RunTask::OrderTests(
                *order,
                test_names(tests@),
                *with_failing,
            ),
            RunAction::AskConcurrency => RunTask::AskConcurrency,
            RunAction::Execute { mode, selection } => RunTask::Execute(
                *mode,
                selected_names(*selection),
            ),
            RunAction::Finish(o) => RunTask::Finish(
                o.exit_code,
                match o.run_id {
                    Some(id) => Some(id@),
                    None => None,
                },
            ),
        }
    }
}

/// One step: what is to be done or why the command fails, how far it has come, what was said.
pub struct RunStep {
    /// What is to be done next, or what is wrong.
    pub task: core::result::Result<RunTask, Failure>,
    /// How far the command has come.
    pub state: RunState,
    /// What was said.
    pub lines: Seq<Seq<char>>,
}

/// A step that says nothing.
pub open spec fn quiet(state: RunState, phase: RunPhase, task: RunTask) -> RunStep {
    RunStep { task: Ok(task), state: RunState { phase, ..state }, lines: Seq::empty() }
}

/// A step that ends without a run.
pub open spec fn ends(state: RunState, line: Seq<char>) -> RunStep {
    RunStep {
        task: Ok(RunTask::Finish(0, None)),
        state: RunState { phase: RunPhase::Finished, ..state },
        lines: seq![line],
    }
}

/// Running the tests once more, unless they have been run often enough.
pub open spec fn begin_iteration(c: RunCommand, state: RunState) -> RunStep {
    let task = RunTask::Execute(state.mode, state.tests);
    let running = RunState { phase: RunPhase::Executing, ..state };
    if state.mode != ExecutionMode::Subunit && c.until_failure {
        if c.max_iterations is Some && state.iteration > c.max_iterations->0 {
            ends(
                state,
                "\nReached maximum iteration limit ("@ + decimal(c.max_iterations->0 as nat)
                    + "), stopping"@,
            )
        } else {
            RunStep {
                task: Ok(task),
                state: running,
                lines: seq!["\n=== Iteration "@ + decimal(state.iteration) + " ==="@],
            }
        }
    } else {
        quiet(state, RunPhase::Executing, task)
    }
}

/// Running each test in a process of its own.
pub open spec fn begin_isolated(c: RunCommand, state: RunState) -> RunStep {
    if state.tests->0.len() == 0 {
        ends(state, "No tests to run"@)
    } else {
        begin_iteration(c, state)
    }
}

/// Running the tests with a number of workers.
pub open spec fn begin_with(c: RunCommand, state: RunState, workers: nat) -> RunStep {
    if c.isolated {
        let s = RunState { mode: ExecutionMode::Isolated, ..state };
        if state.tests is None {
            quiet(s, RunPhase::ListingForIsolation, RunTask::ListTests)
        } else {
            begin_isolated(c, s)
        }
    } else if workers > 1 {
        begin_iteration(
            c,
            RunState { mode: ExecutionMode::Parallel(workers as usize), ..state },
        )
    } else {
        begin_iteration(c, RunState { mode: ExecutionMode::Serial, ..state })
    }
}

/// A step after something was said.
pub open spec fn after_saying(line: Seq<char>, step: RunStep) -> RunStep {
    RunStep { lines: seq![line] + step.lines, ..step }
}

/// Choosing how the tests are run, on a machine with `cpus` processors.
pub open spec fn choose_mode(c: RunCommand, state: RunState, cpus: nat) -> RunStep {
    if c.subunit {
        begin_iteration(c, RunState { mode: ExecutionMode::Subunit, ..state })
    } else {
        match c.concurrency {
            Some(n) => if n == 0 {
                after_saying(
                    "Auto-detected "@ + decimal(cpus) + " CPUs for parallel execution"@,
                    begin_with(c, state, cpus),
                )
            } else {
                begin_with(c, state, n as nat)
            },
            None => quiet(state, RunPhase::AskingConcurrency, RunTask::AskConcurrency),
        }
    }
}

/// The order of the tests: that of the command, else the configured one, else none.
pub open spec fn resolved_order(c: RunCommand, state: RunState) -> core::result::Result<
    TestOrder,
    Failure,
> {
    match c.test_order {
        Some(o) => Ok(o),
        None => match state.configured_order {
            Some(s) => parsed_order(s),
            None => Ok(TestOrder::Discovery),
        },
    }
}

/// Putting the tests in order.
pub open spec fn order_tests(c: RunCommand, state: RunState, cpus: nat) -> RunStep {
    match resolved_order(c, state) {
        Err(f) => RunStep { task: Err(f), state, lines: Seq::empty() },
        Ok(o) => if o == TestOrder::Discovery {
            choose_mode(c, state, cpus)
        } else {
            match state.tests {
                None => quiet(state, RunPhase::ListingForOrder, RunTask::ListTests),
                Some(t) => quiet(
                    state,
                    RunPhase::Sequencing,
                    RunTask::OrderTests(
                        o,
                        t,
                        o == TestOrder::FailingFirst && !c.failing_only,
                    ),
                ),
            }
        },
    }
}

/// What is wrong with the first of the patterns that does not compile.
pub open spec fn filters_problem(filters: Seq<Seq<char>>) -> Option<Seq<char>>
    decreases filters.len(),
{
    if filters.len() == 0 {
        None
    } else {
        match filters_problem(filters.drop_last()) {
            Some(m) => Some(m),
            None => match regex_error(filters.last()) {
                Some(e) => Some(
                    "Invalid test filter regex '"@ + filters.last() + "': "@ + e,
                ),
                None => None,
            },
        }
    }
}

/// Whether a name matches one of the patterns.
pub open spec fn matches_any(filters: Seq<Seq<char>>, name: Seq<char>) -> bool {
    exists|i: int| 0 <= i < filters.len() && regex_matches(#[trigger] filters[i], name)
}

/// The names that match one of the patterns.
pub open spec fn filtered(filters: Seq<Seq<char>>, names: Seq<Seq<char>>) -> Seq<Seq<char>>
    decreases names.len(),
{
    if names.len() == 0 {
        Seq::empty()
    } else {
        let before = filtered(filters, names.drop_last());
        if matches_any(filters, names.last()) {
            before.push(names.last())
        } else {
            before
        }
    }
}

/// Taking the tests with given starts.
pub open spec fn take_starts(c: RunCommand, state: RunState, cpus: nat) -> RunStep {
    match c.starting_with {
        None => order_tests(c, state, cpus),
        Some(v) => if v@.len() == 0 {
            order_tests(c, state, cpus)
        } else {
            match state.tests {
                None => quiet(state, RunPhase::ListingForStart, RunTask::ListTests),
                Some(t) => {
                    let s = starts(texts(v@), v@.len(), t);
                    match s.1 {
                        Err(f) => RunStep { task: Err(f), state, lines: s.0 },
                        Ok(found) => {
                            let step = order_tests(
                                c,
                                RunState { tests: Some(with_starts(found, t)), ..state },
                                cpus,
                            );
                            RunStep { lines: s.0 + step.lines, ..step }
                        },
                    }
                },
            }
        },
    }
}

/// Keeping the tests that match one of the patterns.
pub open spec fn filter_tests(c: RunCommand, state: RunState, cpus: nat) -> RunStep {
    match c.test_filters {
        None => take_starts(c, state, cpus),
        Some(v) => match filters_problem(texts(v@)) {
            Some(m) => RunStep { task: Err(Failure::Config(m)), state, lines: Seq::empty() },
            None => match state.tests {
                None => quiet(state, RunPhase::ListingForFilter, RunTask::ListTests),
                Some(t) => take_starts(
                    c,
                    RunState { tests: Some(filtered(texts(v@), t)), ..state },
                    cpus,
                ),
            },
        },
    }
}

/// The names of `a` that `b` lists.
pub open spec fn listed_in(a: Seq<Seq<char>>, b: Seq<Seq<char>>) -> Seq<Seq<char>>
    decreases a.len(),
{
    if a.len() == 0 {
        Seq::empty()
    } else {
        let before = listed_in(a.drop_last(), b);
        if has_text(b, a.last()) {
            before.push(a.last())
        } else {
            before
        }
    }
}

/// Taking the tests of a file, where one is named.
pub open spec fn read_list(c: RunCommand, state: RunState, cpus: nat) -> RunStep {
    match c.load_list {
        Some(path) => quiet(state, RunPhase::ReadingList, RunTask::ReadList(path@)),
        None => filter_tests(c, state, cpus),
    }
}

/// Whether an event is what is waited for.
pub open spec fn is_expected(p: RunProgress, event: RunEvent) -> bool {
    match p.phase {
        RunPhase::Start => event is Started,
        RunPhase::AutoConfiguring => event is AutoConfigured,
        RunPhase::Opening => event is Opened,
        RunPhase::ReadingFailing => event is Tests,
        RunPhase::ReadingList => event is Tests,
        RunPhase::ListingForFilter => event is Tests,
        RunPhase::ListingForStart => event is Tests,
        RunPhase::ListingForOrder => event is Tests,
        RunPhase::Sequencing => event is Tests,
        RunPhase::AskingConcurrency => event is Concurrency,
        RunPhase::ListingForIsolation => event is Tests,
        RunPhase::Executing => event is Executed && p.iteration < usize::MAX,
        RunPhase::Finished => false,
    }
}

/// The step that an event leads to.
pub open spec fn run_step(c: RunCommand, state: RunState, event: RunEvent, cpus: nat) -> RunStep {
    let opening = quiet(
        state,
        RunPhase::Opening,
        RunTask::OpenRepository(c.force_init || c.auto),
    );
    match (state.phase, event) {
        (RunPhase::Start, RunEvent::Started(configured)) => if c.auto && !configured {
            quiet(state, RunPhase::AutoConfiguring, RunTask::AutoConfigure)
        } else {
            opening
        },
        (RunPhase::AutoConfiguring, RunEvent::AutoConfigured(code)) => if code != 0 {
            quiet(state, RunPhase::Finished, RunTask::Finish(code, None))
        } else {
            opening
        },
        (RunPhase::Opening, RunEvent::Opened(order)) => {
            let s = RunState {
                configured_order: match order {
                    Some(s) => Some(s@),
                    None => None,
                },
                ..state
            };
            if c.failing_only {
                quiet(s, RunPhase::ReadingFailing, RunTask::ReadFailing)
            } else {
                read_list(
                    c,
                    RunState { tests: selected_names(c.test_ids_override), ..s },
                    cpus,
                )
            }
        },
        (RunPhase::ReadingFailing, RunEvent::Tests(v)) => if v@.len() == 0 {
            ends(state, "No failing tests to run"@)
        } else {
            read_list(c, RunState { tests: Some(test_names(v@)), ..state }, cpus)
        },
        (RunPhase::ReadingList, RunEvent::Tests(v)) => filter_tests(
            c,
            RunState {
                tests: match state.tests {
                    Some(t) => Some(listed_in(t, test_names(v@))),
                    None => Some(test_names(v@)),
                },
                ..state
            },
            cpus,
        ),
        (RunPhase::ListingForFilter, RunEvent::Tests(v)) => filter_tests(
            c,
            RunState { tests: Some(test_names(v@)), ..state },
            cpus,
        ),
        (RunPhase::ListingForStart, RunEvent::Tests(v)) => take_starts(
            c,
            RunState { tests: Some(test_names(v@)), ..state },
            cpus,
        ),
        (RunPhase::ListingForOrder, RunEvent::Tests(v)) => order_tests(
            c,
            RunState { tests: Some(test_names(v@)), ..state },
            cpus,
        ),
        (RunPhase::Sequencing, RunEvent::Tests(v)) => choose_mode(
            c,
            RunState { tests: Some(test_names(v@)), ..state },
            cpus,
        ),
        (RunPhase::AskingConcurrency, RunEvent::Concurrency(n)) => match n {
            Some(k) => after_saying(
                "Using concurrency from test_run_concurrency: "@ + decimal(k as nat),
                begin_with(c, state, k as nat),
            ),
            None => begin_with(c, state, 1),
        },
        (RunPhase::ListingForIsolation, RunEvent::Tests(v)) => begin_isolated(
            c,
            RunState { tests: Some(test_names(v@)), ..state },
        ),
        (RunPhase::Executing, RunEvent::Executed { exit_code, run_id }) => {
            let done = quiet(
                state,
                RunPhase::Finished,
                RunTask::Finish(exit_code, Some(run_id@)),
            );
            if state.mode != ExecutionMode::Subunit && c.until_failure {
                if exit_code != 0 {
                    after_saying(
                        "\nTests failed on iteration "@ + decimal(state.iteration),
                        done,
                    )
                } else {
                    begin_iteration(c, RunState { iteration: state.iteration + 1, ..state })
                }
            } else {
                done
            }
        },
        _ => quiet(state, state.phase, RunTask::Finish(0, None)),
    }
}

/// Whether a call made a step.
pub open spec fn made_step(
    r: Result<RunAction>,
    after: RunProgress,
    said_before: Seq<Line>,
    said_after: Seq<Line>,
    step: RunStep,
) -> bool {
    &&& crate::error::outcome_view(r) == step.task
    &&& after@ == step.state
    &&& said_after == said_before + outputs(step.lines)
}

impl RunCommand {
    /// A command that sets nothing but the path.
    pub fn new(base_path: Option<String>) -> (r: Self)
        ensures
            r == plain_run(base_path),
    {
        RunCommand {
            base_path,
            failing_only: false,
            force_init: false,
            partial: false,
            auto: false,
            load_list: None,
            concurrency: None,
            until_failure: false,
            max_iterations: None,
            isolated: false,
            subunit: false,
            all_output: false,
            test_filters: None,
            starting_with: None,
            test_args: None,
            test_ids_override: None,
            test_timeout: TimeoutSetting::Disabled,
            max_duration: TimeoutSetting::Disabled,
            no_output_timeout: None,
            max_restarts: None,
            test_order: None,
        }
    }

    /// A command that runs only the tests that fail.
    pub fn with_failing_only(base_path: Option<String>) -> (r: Self)
        ensures
            r == (RunCommand { failing_only: true, partial: true, ..plain_run(base_path) }),
    {
        let mut r: RunCommand = RunCommand::new(base_path);
        r.failing_only = true;
        r.partial = true;
        r
    }

    /// The start of a command.
    pub fn begin(&self) -> (p: RunProgress)
        ensures
            p@ == (RunState {
                phase: RunPhase::Start,
                tests: None,
                configured_order: None,
                mode: ExecutionMode::Serial,
                iteration: 1,
            }),
    {
        RunProgress {
            phase: RunPhase::Start,
            tests: None,
            configured_order: None,
            mode: ExecutionMode::Serial,
            iteration: 1,
        }
    }

    /// Runs the tests once more, unless they have been run often enough.
    fn begin_iteration(&self, p: &mut RunProgress, ui: &mut Transcript) -> (r: Result<RunAction>)
        ensures
            made_step(r, *final(p), old(ui)@, final(ui)@, begin_iteration(*self, old(p)@)),
    {
        if p.mode != ExecutionMode::Subunit && self.until_failure {
            if let Some(max) = self.max_iterations {
                if p.iteration > max {
                    let line: String = cat3(
                        "\nReached maximum iteration limit (",
                        count_text(max).as_str(),
                        "), stopping",
                    );
                    return self.end_without_run(p, ui, line.as_str());
                }
            }
            let line: String = cat3("\n=== Iteration ", count_text(p.iteration).as_str(), " ===");
            ui.output(line.as_str());
            assert(ui@ =~= old(ui)@ + outputs(seq![line@]));
        } else {
            assert(ui@ =~= old(ui)@ + outputs(Seq::empty()));
        }
        p.phase = RunPhase::Executing;
        Ok(RunAction::Execute { mode: p.mode, selection: copy_tests(&p.tests) })
    }

    /// Ends without a run.
    fn end_without_run(&self, p: &mut RunProgress, ui: &mut Transcript, line: &str) -> (r: Result<
        RunAction,
    >)
        ensures
            made_step(r, *final(p), old(ui)@, final(ui)@, ends(old(p)@, line@)),
    {
        ui.output(line);
        assert(ui@ =~= old(ui)@ + outputs(seq![line@]));
        p.phase = RunPhase::Finished;
        Ok(RunAction::Finish(CliRunOutput::no_run(0)))
    }

    /// Runs each test in a process of its own.
    fn begin_isolated(&self, p: &mut RunProgress, ui: &mut Transcript) -> (r: Result<RunAction>)
        requires
            old(p).tests is Some,
        ensures
            made_step(r, *final(p), old(ui)@, final(ui)@, begin_isolated(*self, old(p)@)),
    {
        let empty: bool = match &p.tests {
            Some(v) => v.len() == 0,
            None => true,
        };
        if empty {
            self.end_without_run(p, ui, "No tests to run")
        } else {
            self.begin_iteration(p, ui)
        }
    }

    /// Runs the tests with a number of workers.
    fn begin_with(&self, p: &mut RunProgress, workers: usize, ui: &mut Transcript) -> (r: Result<
        RunAction,
    >)
        ensures
            made_step(
                r,
                *final(p),
                old(ui)@,
                final(ui)@,
                begin_with(*self, old(p)@, workers as nat),
            ),
    {
        if self.isolated {
            p.mode = ExecutionMode::Isolated;
            if p.tests.is_none() {
                p.phase = RunPhase::ListingForIsolation;
                assert(ui@ =~= old(ui)@ + outputs(Seq::empty()));
                return Ok(RunAction::ListTests);
            }
            self.begin_isolated(p, ui)
        } else if workers > 1 {
            p.mode = ExecutionMode::Parallel(workers);
            self.begin_iteration(p, ui)
        } else {
            p.mode = ExecutionMode::Serial;
            self.begin_iteration(p, ui)
        }
    }

    /// Chooses how the tests are run.
    fn choose_mode(&self, p: &mut RunProgress, cpus: usize, ui: &mut Transcript) -> (r: Result<
        RunAction,
    >)
        ensures
            made_step(
                r,
                *final(p),
                old(ui)@,
                final(ui)@,
                choose_mode(*self, old(p)@, cpus as nat),
            ),
    {
        if self.subunit {
            p.mode = ExecutionMode::Subunit;
            return self.begin_iteration(p, ui);
        }
        match self.concurrency {
            Some(n) => {
                if n == 0 {
                    let line: String = cat3(
                        "Auto-detected ",
                        count_text(cpus).as_str(),
                        " CPUs for parallel execution",
                    );
                    ui.output(line.as_str());
                    let ghost said = ui@;
                    let ghost step = begin_with(*self, p@, cpus as nat);
                    let r: Result<RunAction> = self.begin_with(p, cpus, ui);
                    assert(ui@ =~= old(ui)@ + outputs(seq![line@] + step.lines));
                    r
                } else {
                    self.begin_with(p, n, ui)
                }
            },
            None => {
                p.phase = RunPhase::AskingConcurrency;
                assert(ui@ =~= old(ui)@ + outputs(Seq::empty()));
                Ok(RunAction::AskConcurrency)
            },
        }
    }

    /// Puts the tests in order.
    fn order_tests(&self, p: &mut RunProgress, cpus: usize, ui: &mut Transcript) -> (r: Result<
        RunAction,
    >)
        ensures
            made_step(
                r,
                *final(p),
                old(ui)@,
                final(ui)@,
                order_tests(*self, old(p)@, cpus as nat),
            ),
    {
        let resolved: Result<TestOrder> = match self.test_order {
            Some(o) => Ok(o),
            None => match &p.configured_order {
                Some(s) => TestOrder::parse(s.as_str()),
                None => Ok(TestOrder::Discovery),
            },
        };
        assert(ui@ =~= old(ui)@ + outputs(Seq::empty()));
        match resolved {
            Err(e) => Err(e),
            Ok(order) => {
                if order == TestOrder::Discovery {
                    return self.choose_mode(p, cpus, ui);
                }
                match copy_tests(&p.tests) {
                    None => {
                        p.phase = RunPhase::ListingForOrder;
                        Ok(RunAction::ListTests)
                    },
                    Some(tests) => {
                        p.phase = RunPhase::Sequencing;
                        let with_failing: bool = order == TestOrder::FailingFirst
                            && !self.failing_only;
                        Ok(RunAction::OrderTests { order, tests, with_failing })
                    },
                }
            },
        }
    }

    /// Takes the tests with given starts.
    fn take_starts(&self, p: &mut RunProgress, cpus: usize, ui: &mut Transcript) -> (r: Result<
        RunAction,
    >)
        ensures
            made_step(
                r,
                *final(p),
                old(ui)@,
                final(ui)@,
                take_starts(*self, old(p)@, cpus as nat),
            ),
    {
        let list: &Vec<String> = match &self.starting_with {
            None => {
                return self.order_tests(p, cpus, ui);
            },
            Some(v) => v,
        };
        if list.len() == 0 {
            return self.order_tests(p, cpus, ui);
        }
        let kept: Vec<TestId> = match &p.tests {
            None => {
                p.phase = RunPhase::ListingForStart;
                assert(ui@ =~= old(ui)@ + outputs(Seq::empty()));
                return Ok(RunAction::ListTests);
            },
            Some(tests) => match expand_starts(list, tests, ui) {
                Err(e) => {
                    return Err(e);
                },
                Ok(found) => keep_starts(&found, tests),
            },
        };
        p.tests = Some(kept);
        let ghost lines = starts(texts(list@), list@.len(), old(p)@.tests->0).0;
        let ghost step = order_tests(*self, p@, cpus as nat);
        let r: Result<RunAction> = self.order_tests(p, cpus, ui);
        proof {
            outputs_join(lines, step.lines);
            assert(ui@ =~= old(ui)@ + outputs(lines + step.lines));
        }
        r
    }

    /// Keeps the tests that match one of the patterns.
    fn filter_tests(&self, p: &mut RunProgress, cpus: usize, ui: &mut Transcript) -> (r: Result<
        RunAction,
    >)
        ensures
            made_step(
                r,
                *final(p),
                old(ui)@,
                final(ui)@,
                filter_tests(*self, old(p)@, cpus as nat),
            ),
    {
        let filters: &Vec<String> = match &self.test_filters {
            None => {
                return self.take_starts(p, cpus, ui);
            },
            Some(v) => v,
        };
        assert(ui@ =~= old(ui)@ + outputs(Seq::empty()));
        let compiled: Vec<Regexp> = match compile_filters(filters) {
            Ok(v) => v,
            Err(e) => {
                return Err(e);
            },
        };
        let kept: Vec<TestId> = match &p.tests {
            None => {
                p.phase = RunPhase::ListingForFilter;
                return Ok(RunAction::ListTests);
            },
            Some(tests) => apply_filters(&compiled, tests),
        };
        let ghost names = patterns(compiled@);
        assert(names =~= texts(filters@));
        p.tests = Some(kept);
        self.take_starts(p, cpus, ui)
    }

    /// Takes the tests of a file, where one is named.
    fn read_list(&self, p: &mut RunProgress, cpus: usize, ui: &mut Transcript) -> (r: Result<
        RunAction,
    >)
        ensures
            made_step(
                r,
                *final(p),
                old(ui)@,
                final(ui)@,
                read_list(*self, old(p)@, cpus as nat),
            ),
    {
        match &self.load_list {
            Some(path) => {
                p.phase = RunPhase::ReadingList;
                assert(ui@ =~= old(ui)@ + outputs(Seq::empty()));
                Ok(RunAction::ReadList(path.clone()))
            },
            None => self.filter_tests(p, cpus, ui),
        }
    }

    /// Opens the repository.
    fn open(&self, p: &mut RunProgress, ui: &Transcript) -> (r: Result<RunAction>)
        ensures
            made_step(
                r,
                *final(p),
                ui@,
                ui@,
                quiet(
                    old(p)@,
                    RunPhase::Opening,
                    RunTask::OpenRepository(self.force_init || self.auto),
                ),
            ),
    {
        p.phase = RunPhase::Opening;
        assert(ui@ =~= ui@ + outputs(Seq::empty()));
        Ok(RunAction::OpenRepository { create: self.force_init || self.auto })
    }

    /// Takes tests that were asked for and says what is to be done next.
    fn take_tests(
        &self,
        p: &mut RunProgress,
        tests: Vec<TestId>,
        cpus: usize,
        ui: &mut Transcript,
    ) -> (r: Result<RunAction>)
        requires
            is_expected(*old(p), RunEvent::Tests(tests)),
        ensures
            made_step(
                r,
                *final(p),
                old(ui)@,
                final(ui)@,
                run_step(*self, old(p)@, RunEvent::Tests(tests), cpus as nat),
            ),
    {
        match p.phase {
            RunPhase::ReadingFailing => {
                if tests.len() == 0 {
                    return self.end_without_run(p, ui, "No failing tests to run");
                }
                p.tests = Some(tests);
                self.read_list(p, cpus, ui)
            },
            RunPhase::ReadingList => {
                let kept: Vec<TestId> = match &p.tests {
                    Some(t) => intersect(t, &tests),
                    None => tests,
                };
                p.tests = Some(kept);
                self.filter_tests(p, cpus, ui)
            },
            RunPhase::ListingForFilter => {
                p.tests = Some(tests);
                self.filter_tests(p, cpus, ui)
            },
            RunPhase::ListingForStart => {
                p.tests = Some(tests);
                self.take_starts(p, cpus, ui)
            },
            RunPhase::ListingForOrder => {
                p.tests = Some(tests);
                self.order_tests(p, cpus, ui)
            },
            RunPhase::Sequencing => {
                p.tests = Some(tests);
                self.choose_mode(p, cpus, ui)
            },
            _ => {
                p.tests = Some(tests);
                self.begin_isolated(p, ui)
            },
        }
    }

    /// Takes what came of the last action, on a machine with `cpus` processors, and says what is
    /// to be done next.
    #[verifier::rlimit(40)]
    pub fn advance_on(
        &self,
        p: &mut RunProgress,
        event: RunEvent,
        cpus: usize,
        ui: &mut Transcript,
    ) -> (r: Result<RunAction>)
        requires
            is_expected(*old(p), event),
        ensures
            made_step(
                r,
                *final(p),
                old(ui)@,
                final(ui)@,
                run_step(*self, old(p)@, event, cpus as nat),
            ),
    {
        assert(ui@ =~= ui@ + outputs(Seq::empty()));
        match event {
            RunEvent::Started(configured) => {
                if self.auto && !configured {
                    p.phase = RunPhase::AutoConfiguring;
                    return Ok(RunAction::AutoConfigure);
                }
                self.open(p, ui)
            },
            RunEvent::AutoConfigured(code) => {
                if code != 0 {
                    p.phase = RunPhase::Finished;
                    return Ok(RunAction::Finish(CliRunOutput::no_run(code)));
                }
                self.open(p, ui)
            },
            RunEvent::Opened(order) => {
                p.configured_order = order;
                if self.failing_only {
                    p.phase = RunPhase::ReadingFailing;
                    return Ok(RunAction::ReadFailing);
                }
                p.tests = copy_tests(&self.test_ids_override);
                self.read_list(p, cpus, ui)
            },
            RunEvent::Tests(tests) => self.take_tests(p, tests, cpus, ui),
            RunEvent::Concurrency(n) => match n {
                Some(k) => {
                    let line: String = crate::text::compose::cat2(
                        "Using concurrency from test_run_concurrency: ",
                        count_text(k).as_str(),
                    );
                    ui.output(line.as_str());
                    let ghost step = begin_with(*self, p@, k as nat);
                    let r: Result<RunAction> = self.begin_with(p, k, ui);
                    assert(ui@ =~= old(ui)@ + outputs(seq![line@] + step.lines));
                    r
                },
                None => self.begin_with(p, 1, ui),
            },
            RunEvent::Executed { exit_code, run_id } => {
                if p.mode != ExecutionMode::Subunit && self.until_failure {
                    if exit_code == 0 {
                        p.iteration = p.iteration + 1;
                        return self.begin_iteration(p, ui);
                    }
                    let line: String = crate::text::compose::cat2(
                        "\nTests failed on iteration ",
                        count_text(p.iteration).as_str(),
                    );
                    ui.output(line.as_str());
                    assert(ui@ =~= old(ui)@ + outputs(seq![line@] + Seq::empty()));
                }
                p.phase = RunPhase::Finished;
                Ok(RunAction::Finish(CliRunOutput { exit_code, run_id: Some(run_id) }))
            },
        }
    }

    /// Takes what came of the last action and says what is to be done next.
    pub fn advance(&self, p: &mut RunProgress, event: RunEvent, ui: &mut Transcript) -> (r: Result<
        RunAction,
    >)
        requires
            is_expected(*old(p), event),
        ensures
            exists|cpus: nat| #[trigger]
                made_step(
                    r,
                    *final(p),
                    old(ui)@,
                    final(ui)@,
                    run_step(*self, old(p)@, event, cpus),
                ),
    {
        let cpus: usize = cpu_count();
        let ghost step = run_step(*self, p@, event, cpus as nat);
        let r: Result<RunAction> = self.advance_on(p, event, cpus, ui);
        assert(made_step(r, *p, old(ui)@, ui@, step));
        r
    }
}

/// The same tests once more.
pub(crate) fn copy_tests(tests: &Option<Vec<TestId>>) -> (r: Option<Vec<TestId>>)
    ensures
        selected_names(r) == selected_names(*tests),
{
    match tests {
        None => None,
        Some(v) => {
            let mut r: Vec<TestId> = Vec::new();
            for i in 0..v.len()
                invariant
                    test_names(r@) =~= test_names(v@).take(i as int),
            {
                r.push(v[i].copy());
            }
            assert(test_names(r@) =~= test_names(v@));
            Some(r)
        },
    }
}

/// The patterns of compiled expressions.
pub open spec fn patterns(v: Seq<Regexp>) -> Seq<Seq<char>> {
    Seq::new(v.len(), |i: int| v[i]@)
}

/// What is wrong with the first patterns is wrong with all.
proof fn filters_problem_stays(filters: Seq<Seq<char>>, n: int)
    requires
        0 <= n <= filters.len(),
        filters_problem(filters.take(n)) is Some,
    ensures
        filters_problem(filters) == filters_problem(filters.take(n)),
    decreases filters.len() - n,
{
    if n < filters.len() {
        assert(filters.take(n + 1).drop_last() =~= filters.take(n));
        filters_problem_stays(filters, n + 1);
    } else {
        assert(filters.take(n) =~= filters);
    }
}

/// Compiles patterns.
pub(crate) fn compile_filters(filters: &Vec<String>) -> (r: Result<Vec<Regexp>>)
    ensures
        match filters_problem(texts(filters@)) {
            Some(m) => r matches Err(e) && e@ == Failure::Config(m),
            None => r matches Ok(v) && patterns(v@) == texts(filters@),
        },
{
    let ghost all = texts(filters@);
    let mut v: Vec<Regexp> = Vec::new();
    for i in 0..filters.len()
        invariant
            all == texts(filters@),
            filters_problem(all.take(i as int)) is None,
            patterns(v@) =~= all.take(i as int),
    {
        assert(all.take(i + 1).drop_last() =~= all.take(i as int));
        match Regexp::compile(filters[i].as_str()) {
            Ok(re) => {
                let ghost before = v@;
                v.push(re);
                assert(patterns(v@) =~= patterns(before).push(all[i as int]));
            },
            Err(e) => {
                proof {
                    filters_problem_stays(all, i + 1);
                }
                return Err(
                    Error::Config(
                        cat4(
                            "Invalid test filter regex '",
                            filters[i].as_str(),
                            "': ",
                            e.as_str(),
                        ),
                    ),
                );
            },
        }
    }
    assert(all.take(filters@.len() as int) =~= all);
    Ok(v)
}

/// The tests that match one of the patterns.
pub(crate) fn apply_filters(filters: &Vec<Regexp>, tests: &Vec<TestId>) -> (r: Vec<TestId>)
    ensures
        test_names(r@) == filtered(patterns(filters@), test_names(tests@)),
{
    let ghost names = test_names(tests@);
    let ghost ps = patterns(filters@);
    let mut r: Vec<TestId> = Vec::new();
    assert(test_names(r@) =~= filtered(ps, names.take(0)));
    for i in 0..tests.len()
        invariant
            names == test_names(tests@),
            ps == patterns(filters@),
            test_names(r@) == filtered(ps, names.take(i as int)),
    {
        assert(names.take(i + 1).drop_last() =~= names.take(i as int));
        let mut found: bool = false;
        for k in 0..filters.len()
            invariant
                i < tests@.len(),
                ps == patterns(filters@),
                found <==> exists|j: int|
                    0 <= j < k && regex_matches(#[trigger] ps[j], tests@[i as int]@),
        {
            if filters[k].is_match(tests[i].as_str()) {
                assert(regex_matches(ps[k as int], tests@[i as int]@));
                found = true;
            }
        }
        if found {
            r.push(tests[i].copy());
        }
    }
    assert(names.take(tests@.len() as int) =~= names);
    r
}

/// The tests of `a` that `b` lists.
fn intersect(a: &Vec<TestId>, b: &Vec<TestId>) -> (r: Vec<TestId>)
    ensures
        test_names(r@) == listed_in(test_names(a@), test_names(b@)),
{
    let ghost x = test_names(a@);
    let ghost y = test_names(b@);
    let mut r: Vec<TestId> = Vec::new();
    assert(test_names(r@) =~= listed_in(x.take(0), y));
    for i in 0..a.len()
        invariant
            x == test_names(a@),
            y == test_names(b@),
            test_names(r@) == listed_in(x.take(i as int), y),
    {
        assert(x.take(i + 1).drop_last() =~= x.take(i as int));
        let mut found: bool = false;
        for k in 0..b.len()
            invariant
                i < a@.len(),
                y == test_names(b@),
                found <==> exists|j: int| 0 <= j < k && #[trigger] y[j] == a@[i as int]@,
        {
            if text_eq(b[k].as_str(), a[i].as_str()) {
                assert(y[k as int] == a@[i as int]@);
                found = true;
            }
        }
        if found {
            r.push(a[i].copy());
        }
    }
    assert(x.take(a@.len() as int) =~= x);
    r
}

/// Filtering keeps exactly the tests that match one of the patterns.
pub proof fn filtering_keeps_matches(filters: Seq<Seq<char>>, names: Seq<Seq<char>>, t: Seq<char>)
    ensures
        filtered(filters, names).contains(t) <==> names.contains(t) && matches_any(filters, t),
    decreases names.len(),
{
    if names.len() > 0 {
        let fewer = names.drop_last();
        let before = filtered(filters, fewer);
        filtering_keeps_matches(filters, fewer, t);
        let now = filtered(filters, names);
        if now.contains(t) && t != names.last() {
            let k = choose|k: int| 0 <= k < now.len() && now[k] == t;
            assert(before[k] == t);
        }
        if before.contains(t) {
            let k = choose|k: int| 0 <= k < before.len() && before[k] == t;
            assert(now[k] == t);
        }
        if fewer.contains(t) {
            let k = choose|k: int| 0 <= k < fewer.len() && fewer[k] == t;
            assert(names[k] == t);
        }
        if names.contains(t) && t != names.last() {
            let k = choose|k: int| 0 <= k < names.len() && names[k] == t;
            assert(fewer[k] == t);
        }
        if t == names.last() && matches_any(filters, t) {
            assert(now[now.len() - 1] == t);
            assert(names[names.len() - 1] == t);
        }
        if now.contains(t) && t == names.last() && !matches_any(filters, t) {
            assert(before.contains(t));
        }
    }
}

/// A run that fails ends the command: nothing is run after it, and its exit code and its name are
/// what the command ends with.
pub proof fn failed_run_is_the_last(
    c: RunCommand,
    state: RunState,
    exit_code: i32,
    run_id: RunId,
    cpus: nat,
)
    requires
        state.phase == RunPhase::Executing,
        exit_code != 0,
    ensures
        ({
            let step = run_step(c, state, RunEvent::Executed { exit_code, run_id }, cpus);
            &&& step.task == Ok::<RunTask, Failure>(RunTask::Finish(exit_code, Some(run_id@)))
            &&& step.state.phase == RunPhase::Finished
            &&& c.until_failure && state.mode != ExecutionMode::Subunit ==> step.lines == seq![
                "\nTests failed on iteration "@ + decimal(state.iteration),
            ]
        }),
{
    let step = run_step(c, state, RunEvent::Executed { exit_code, run_id }, cpus);
    if c.until_failure && state.mode != ExecutionMode::Subunit {
        assert(step.lines =~= seq!["\nTests failed on iteration "@ + decimal(state.iteration)]);
    }
}

/// A run that passes ends the command as well, unless tests are run until one fails. Then the same
/// tests are run once more in the same way, unless they have been run as often as is allowed.
pub proof fn passed_run_is_repeated_only_until_failure(
    c: RunCommand,
    state: RunState,
    run_id: RunId,
    cpus: nat,
)
    requires
        state.phase == RunPhase::Executing,
    ensures
        ({
            let step = run_step(c, state, RunEvent::Executed { exit_code: 0, run_id }, cpus);
            let again = c.until_failure && state.mode != ExecutionMode::Subunit;
            let allowed = c.max_iterations matches Some(max) ==> state.iteration < max;
            &&& !again ==> step.task == Ok::<RunTask, Failure>(
                RunTask::Finish(0, Some(run_id@)),
            ) && step.state.phase == RunPhase::Finished
            &&& again && allowed ==> step.task == Ok::<RunTask, Failure>(
                RunTask::Execute(state.mode, state.tests),
            ) && step.state == (RunState { iteration: state.iteration + 1, ..state })
            &&& again && !allowed ==> step.task == Ok::<RunTask, Failure>(RunTask::Finish(0, None))
                && step.state.phase == RunPhase::Finished
        }),
{
}

/// Ordering tests and choosing how to run them changes nothing of what was selected.
proof fn ordering_keeps_tests(c: RunCommand, state: RunState, cpus: nat)
    ensures
        order_tests(c, state, cpus).state.tests == state.tests,
        order_tests(c, state, cpus).task is Ok ==> order_tests(c, state, cpus).state.phase
            != RunPhase::ReadingFailing && order_tests(c, state, cpus).state.phase
            != RunPhase::ReadingList && order_tests(c, state, cpus).state.phase
            != RunPhase::ListingForFilter && order_tests(c, state, cpus).state.phase
            != RunPhase::ListingForStart,
{
}

/// What is selected of tests by patterns and by starts.
#[verifier::rlimit(40)]
proof fn filtering_is(c: RunCommand, state: RunState, cpus: nat, name: Seq<char>)
    requires
        state.tests is Some,
        filter_tests(c, state, cpus).task is Ok,
    ensures
        ({
            let u = filter_tests(c, state, cpus).state.tests;
            let kept = state.tests->0.contains(name) && (c.test_filters matches Some(f) ==> exists|
                k: int,
            |
                0 <= k < f@.len() && regex_matches((#[trigger] f@[k])@, name));
            &&& u is Some
            &&& u->0.contains(name) ==> kept
            &&& c.starting_with is None || c.starting_with->0@.len() == 0 ==> u->0.contains(name)
                == kept
        }),
{
    let t = state.tests->0;
    let w = match c.test_filters {
        Some(f) => filtered(texts(f@), t),
        None => t,
    };
    if let Some(f) = c.test_filters {
        filtering_keeps_matches(texts(f@), t, name);
        if matches_any(texts(f@), name) {
            let k = choose|k: int|
                0 <= k < texts(f@).len() && regex_matches(#[trigger] texts(f@)[k], name);
            assert(regex_matches(f@[k]@, name));
        }
        if exists|k: int| 0 <= k < f@.len() && regex_matches((#[trigger] f@[k])@, name) {
            let k = choose|k: int| 0 <= k < f@.len() && regex_matches((#[trigger] f@[k])@, name);
            assert(regex_matches(texts(f@)[k], name));
        }
    }
    let s = RunState { tests: Some(w), ..state };
    assert(s == state || c.test_filters is Some);
    ordering_keeps_tests(c, s, cpus);
    if let Some(v) = c.starting_with {
        if v@.len() > 0 {
            if let Ok(found) = starts(texts(v@), v@.len(), w).1 {
                ordering_keeps_tests(
                    c,
                    RunState { tests: Some(with_starts(found, w)), ..s },
                    cpus,
                );
                starts_keep_matches(found, w, name);
            }
        }
    }
}

/// A start is the name, or goes before a dot in it.
proof fn start_is(e: Seq<char>, name: Seq<char>)
    ensures
        crate::commands::starts::is_start(e, name) <==> e == name || has_prefix(name, e + "."@),
{
    reveal_strlit(".");
    let p = e + "."@;
    if has_prefix(name, p) {
        assert(name.take(e.len() as int) =~= name.take(p.len() as int).take(e.len() as int));
        assert(p.take(e.len() as int) =~= e);
        assert(name[e.len() as int] == name.take(p.len() as int)[e.len() as int]);
    }
    if e == name {
        assert(name.take(e.len() as int) =~= e);
    }
    if crate::commands::starts::is_start(e, name) {
        if name.len() == e.len() {
            assert(name.take(e.len() as int) =~= name);
        } else {
            assert(name.take(p.len() as int) =~= p);
        }
    }
}

/// Keeping tests by the starts of their names keeps exactly those whose name is one of the starts
/// or goes on behind one with a dot.
pub proof fn starts_keep_matches(found: Seq<Seq<char>>, names: Seq<Seq<char>>, name: Seq<char>)
    ensures
        with_starts(found, names).contains(name) <==> names.contains(name) && exists|k: int|
            0 <= k < found.len() && (#[trigger] found[k] == name || has_prefix(
                name,
                found[k] + "."@,
            )),
    decreases names.len(),
{
    let now = with_starts(found, names);
    if names.len() > 0 {
        let fewer = names.drop_last();
        let before = with_starts(found, fewer);
        starts_keep_matches(found, fewer, name);
        assert(names[names.len() - 1] == names.last());
        if now.contains(name) && name != names.last() {
            let k = choose|k: int| 0 <= k < now.len() && now[k] == name;
            assert(before[k] == name);
        }
        if before.contains(name) {
            let k = choose|k: int| 0 <= k < before.len() && before[k] == name;
            assert(now[k] == name);
        }
        if fewer.contains(name) {
            let k = choose|k: int| 0 <= k < fewer.len() && fewer[k] == name;
            assert(names[k] == name);
        }
        if names.contains(name) && name != names.last() {
            let k = choose|k: int| 0 <= k < names.len() && names[k] == name;
            assert(fewer[k] == name);
        }
        if name == names.last() {
            if crate::commands::starts::has_start(found, name) {
                assert(now[now.len() - 1] == name);
                let k = choose|k: int|
                    0 <= k < found.len() && crate::commands::starts::is_start(
                        #[trigger] found[k],
                        name,
                    );
                start_is(found[k], name);
                assert(found[k] == name || has_prefix(name, found[k] + "."@));
            } else if exists|k: int|
                0 <= k < found.len() && (#[trigger] found[k] == name || has_prefix(
                    name,
                    found[k] + "."@,
                )) {
                let k = choose|k: int|
                    0 <= k < found.len() && (#[trigger] found[k] == name || has_prefix(
                        name,
                        found[k] + "."@,
                    ));
                start_is(found[k], name);
                assert(crate::commands::starts::is_start(found[k], name));
            }
        }
    }
}

/// The names that two lists share are those of both.
pub proof fn listing_keeps_common_names(a: Seq<Seq<char>>, b: Seq<Seq<char>>, name: Seq<char>)
    ensures
        listed_in(a, b).contains(name) <==> a.contains(name) && b.contains(name),
    decreases a.len(),
{
    let now = listed_in(a, b);
    if a.len() > 0 {
        let fewer = a.drop_last();
        let before = listed_in(fewer, b);
        listing_keeps_common_names(fewer, b, name);
        assert(a[a.len() - 1] == a.last());
        if now.contains(name) && name != a.last() {
            let k = choose|k: int| 0 <= k < now.len() && now[k] == name;
            assert(before[k] == name);
        }
        if before.contains(name) {
            let k = choose|k: int| 0 <= k < before.len() && before[k] == name;
            assert(now[k] == name);
        }
        if fewer.contains(name) {
            let k = choose|k: int| 0 <= k < fewer.len() && fewer[k] == name;
            assert(a[k] == name);
        }
        if a.contains(name) && name != a.last() {
            let k = choose|k: int| 0 <= k < a.len() && a[k] == name;
            assert(fewer[k] == name);
        }
        if name == a.last() {
            if has_text(b, name) {
                assert(now[now.len() - 1] == name);
                let k = choose|k: int| 0 <= k < b.len() && #[trigger] b[k] == name;
                assert(b.contains(name));
            } else if b.contains(name) {
                let k = choose|k: int| 0 <= k < b.len() && b[k] == name;
                assert(has_text(b, name));
            }
        }
    }
}

/// The tests that are selected meet every criterion: of the tests that fail, that a file lists or
/// that the command knows, those are selected that match one of the patterns, and, where a file
/// lists tests, that were selected before. Starts of names only narrow that further.
#[verifier::rlimit(40)]
pub proof fn selected_tests_meet_the_criteria(
    c: RunCommand,
    state: RunState,
    v: Vec<TestId>,
    cpus: nat,
    name: Seq<char>,
)
    requires
        state.phase == RunPhase::ReadingFailing || state.phase == RunPhase::ReadingList
            || state.phase == RunPhase::ListingForFilter,
        run_step(c, state, RunEvent::Tests(v), cpus).task matches Ok(task) && !(task is Finish),
    ensures
        ({
            let step = run_step(c, state, RunEvent::Tests(v), cpus);
            let unread = state.phase == RunPhase::ReadingFailing && c.load_list is Some;
            let kept = test_names(v@).contains(name) && (state.phase == RunPhase::ReadingList
                && state.tests is Some ==> state.tests->0.contains(name)) && (!unread
                && c.test_filters is Some ==> exists|k: int|
                0 <= k < c.test_filters->0@.len() && regex_matches(
                    (#[trigger] c.test_filters->0@[k])@,
                    name,
                ));
            &&& step.state.tests is Some
            &&& step.state.tests->0.contains(name) ==> kept
            &&& unread || c.starting_with is None || c.starting_with->0@.len() == 0
                ==> step.state.tests->0.contains(name) == kept
            &&& step.state.phase == RunPhase::ReadingList <==> unread
            &&& step.state.phase != RunPhase::ListingForFilter
        }),
{
    let step = run_step(c, state, RunEvent::Tests(v), cpus);
    let names = test_names(v@);
    let tests = if state.phase == RunPhase::ReadingList && state.tests is Some {
        listing_keeps_common_names(state.tests->0, names, name);
        listed_in(state.tests->0, names)
    } else {
        names
    };
    let s = RunState { tests: Some(tests), ..state };
    if state.phase == RunPhase::ReadingFailing && c.load_list is Some {
        assert(step.state.tests == Some(names));
    } else {
        assert(step == filter_tests(c, s, cpus));
        filtering_is(c, s, cpus, name);
        filtered_goes_on(c, s, cpus);
    }
}

/// Selected tests are not listed again.
proof fn filtered_goes_on(c: RunCommand, state: RunState, cpus: nat)
    requires
        state.tests is Some,
        filter_tests(c, state, cpus).task is Ok,
    ensures
        filter_tests(c, state, cpus).state.phase != RunPhase::ReadingList,
        filter_tests(c, state, cpus).state.phase != RunPhase::ListingForFilter,
        filter_tests(c, state, cpus).state.phase != RunPhase::ListingForStart,
{
    let t = state.tests->0;
    let w = match c.test_filters {
        Some(f) => filtered(texts(f@), t),
        None => t,
    };
    let s = RunState { tests: Some(w), ..state };
    ordering_keeps_tests(c, state, cpus);
    ordering_keeps_tests(c, s, cpus);
    if let Some(v) = c.starting_with {
        if let Ok(found) = starts(texts(v@), v@.len(), w).1 {
            ordering_keeps_tests(c, RunState { tests: Some(with_starts(found, w)), ..s }, cpus);
        }
    }
}

/// All tests are run only where nothing narrows them: where tests are to fail, to be listed, to
/// match a pattern or to have a start, the command asks for tests first.
pub proof fn all_tests_are_run_only_where_nothing_narrows(
    c: RunCommand,
    state: RunState,
    order: Option<String>,
    cpus: nat,
)
    requires
        state.phase == RunPhase::Opening,
        c.failing_only || c.load_list is Some || c.test_filters is Some || (c.starting_with matches Some(
            v,
        ) && v@.len() > 0),
        c.failing_only || c.test_ids_override is None,
    ensures
        ({
            let step = run_step(c, state, RunEvent::Opened(order), cpus);
            match step.task {
                Ok(task) => task == (if c.failing_only {
                    RunTask::ReadFailing
                } else if c.load_list is Some {
                    RunTask::ReadList(c.load_list->0@)
                } else {
                    RunTask::ListTests
                }) && step.state.phase == (if c.failing_only {
                    RunPhase::ReadingFailing
                } else if c.load_list is Some {
                    RunPhase::ReadingList
                } else if c.test_filters is Some {
                    RunPhase::ListingForFilter
                } else {
                    RunPhase::ListingForStart
                }),
                Err(f) => c.test_filters is Some,
            }
        }),
{
}

/// Tests are put in the order that is asked for, else in the configured one, and only where that
/// is another one than that in which they are found. That tests fail matters where those that fail
/// come first, unless only such tests are run.
pub proof fn tests_are_put_in_the_order_asked_for(c: RunCommand, state: RunState, cpus: nat)
    ensures
        match order_tests(c, state, cpus).task {
            Ok(RunTask::OrderTests(o, tests, with_failing)) => {
                &&& o != TestOrder::Discovery
                &&& state.tests == Some(tests)
                &&& c.test_order matches Some(p) ==> o == p
                &&& c.test_order is None ==> state.configured_order is Some && parsed_order(
                    state.configured_order->0,
                ) == Ok::<TestOrder, Failure>(o)
                &&& with_failing == (o == TestOrder::FailingFirst && !c.failing_only)
            },
            Ok(RunTask::ListTests) if order_tests(c, state, cpus).state.phase
                == RunPhase::ListingForOrder => state.tests is None && (c.test_order matches Some(p)
                ==> p != TestOrder::Discovery),
            Ok(_) => c.test_order == Some(TestOrder::Discovery) || (c.test_order is None && (
            state.configured_order is None || parsed_order(state.configured_order->0) == Ok::<
                TestOrder,
                Failure,
            >(TestOrder::Discovery))),
            Err(f) => c.test_order is None && state.configured_order is Some && parsed_order(
                state.configured_order->0,
            ) == Err::<TestOrder, Failure>(f),
        },
{
}

/// Where only tests that fail are to be run and none does, nothing is run.
pub proof fn nothing_is_run_where_nothing_fails(
    c: RunCommand,
    state: RunState,
    v: Vec<TestId>,
    cpus: nat,
)
    requires
        state.phase == RunPhase::ReadingFailing,
    ensures
        ({
            let step = run_step(c, state, RunEvent::Tests(v), cpus);
            v@.len() == 0 ==> step.task == Ok::<RunTask, Failure>(RunTask::Finish(0, None))
                && step.state.phase == RunPhase::Finished
        }),
{
}

/// A configuration is written only where that is asked for and there is none. Where that fails, the
/// command ends with the exit code of it; otherwise the repository is opened, and created only where
/// that is asked for.
pub proof fn configuration_is_written_only_where_asked(
    c: RunCommand,
    state: RunState,
    configured: bool,
    code: i32,
    cpus: nat,
)
    ensures
        state.phase == RunPhase::Start ==> {
            let step = run_step(c, state, RunEvent::Started(configured), cpus);
            &&& step.task == Ok::<RunTask, Failure>(
                if c.auto && !configured {
                    RunTask::AutoConfigure
                } else {
                    RunTask::OpenRepository(c.force_init || c.auto)
                },
            )
            &&& step.lines.len() == 0
        },
        state.phase == RunPhase::AutoConfiguring ==> {
            let step = run_step(c, state, RunEvent::AutoConfigured(code), cpus);
            &&& code != 0 ==> step.task == Ok::<RunTask, Failure>(RunTask::Finish(code, None))
                && step.state.phase == RunPhase::Finished
            &&& code == 0 ==> step.task == Ok::<RunTask, Failure>(
                RunTask::OpenRepository(c.force_init || c.auto),
            )
        },
{
}

/// Tests are run at least once, unless they may not be run at all or each is to be run by itself
/// and there are none: once the number of workers is known, running them is what is done next.
pub proof fn tests_are_run_at_least_once(
    c: RunCommand,
    state: RunState,
    n: Option<usize>,
    cpus: nat,
)
    requires
        state.iteration == 1,
        c.max_iterations matches Some(max) ==> max >= 1,
        c.isolated ==> state.tests is Some && state.tests->0.len() > 0,
    ensures
        state.phase == RunPhase::AskingConcurrency ==> (run_step(
            c,
            state,
            RunEvent::Concurrency(n),
            cpus,
        ).task matches Ok(RunTask::Execute(_, tests)) && tests == state.tests),
        c.concurrency is Some || c.subunit ==> (choose_mode(c, state, cpus).task matches Ok(
            RunTask::Execute(_, tests),
        ) && tests == state.tests),
        c.concurrency is None && !c.subunit ==> choose_mode(c, state, cpus).task == Ok::<
            RunTask,
            Failure,
        >(RunTask::AskConcurrency),
{
}

/// Tests that were listed or put in order are the ones that are selected.
pub proof fn listed_tests_are_selected(
    c: RunCommand,
    state: RunState,
    v: Vec<TestId>,
    cpus: nat,
)
    requires
        state.phase == RunPhase::ListingForOrder || state.phase == RunPhase::Sequencing
            || state.phase == RunPhase::ListingForIsolation,
    ensures
        run_step(c, state, RunEvent::Tests(v), cpus).state.tests == Some(test_names(v@)),
{
    ordering_keeps_tests(c, RunState { tests: Some(test_names(v@)), ..state }, cpus);
}

/// How far a command has come after an event.
#[verifier::opaque]
pub open spec fn run_next(c: RunCommand, state: RunState, event: RunEvent, cpus: nat) -> RunState {
    run_step(c, state, event, cpus).state
}

/// After tests were run, they are run once more only where they passed and may be run again.
proof fn next_is(c: RunCommand, state: RunState, event: RunEvent, cpus: nat)
    requires
        event is Executed,
        c.until_failure,
        state.phase == RunPhase::Executing ==> state.mode != ExecutionMode::Subunit,
        run_next(c, state, event, cpus).phase == RunPhase::Executing,
    ensures
        state.phase == RunPhase::Executing,
        event->exit_code == 0,
        c.max_iterations matches Some(max) ==> state.iteration < max,
        run_next(c, state, event, cpus) == (RunState { iteration: state.iteration + 1, ..state }),
{
    reveal(run_next);
    let exit_code = event->exit_code;
    let run_id = event->run_id;
    if state.phase == RunPhase::Executing {
        if exit_code != 0 {
            failed_run_is_the_last(c, state, exit_code, run_id, cpus);
        } else {
            passed_run_is_repeated_only_until_failure(c, state, run_id, cpus);
        }
    }
}

/// How far a command has come after events, one after the other.
pub open spec fn run_after(c: RunCommand, state: RunState, events: Seq<RunEvent>, cpus: nat) -> RunState
    decreases events.len(),
{
    if events.len() == 0 {
        state
    } else {
        run_next(c, run_after(c, state, events.drop_last(), cpus), events.last(), cpus)
    }
}

/// The number of an iteration is one more than that of the runs before it, and it is never more
/// than what is allowed.
pub proof fn runs_are_counted(
    c: RunCommand,
    state: RunState,
    events: Seq<RunEvent>,
    cpus: nat,
)
    requires
        state.phase == RunPhase::Executing,
        state.iteration == 1,
        state.mode != ExecutionMode::Subunit,
        c.until_failure,
        c.max_iterations matches Some(max) ==> max >= 1,
        forall|i: int| 0 <= i < events.len() ==> (#[trigger] events[i]) is Executed,
        run_after(c, state, events, cpus).phase == RunPhase::Executing,
    ensures
        run_after(c, state, events, cpus) == (RunState { iteration: events.len() + 1, ..state }),
        forall|i: int| 0 <= i < events.len() ==> (#[trigger] events[i])->exit_code == 0,
        c.max_iterations matches Some(max) ==> events.len() + 1 <= max,
    decreases events.len(),
{
    if events.len() > 0 {
        let init = events.drop_last();
        let before = run_after(c, state, init, cpus);
        let last = events.last();
        assert(events[events.len() - 1] is Executed);
        assert forall|i: int| 0 <= i < init.len() implies (#[trigger] init[i]) is Executed by {
            assert(events[i] is Executed);
        }
        if before.phase == RunPhase::Executing {
            runs_are_counted(c, state, init, cpus);
        }
        next_is(c, before, last, cpus);
        assert forall|i: int| 0 <= i < events.len() implies (#[trigger] events[i])->exit_code
            == 0 by {
            if i < init.len() {
                assert(init[i]->exit_code == 0);
            }
        }
    }
}

/// Tests are run the way that is asked for: as a stream where that is asked for, else each by
/// itself where that is, else by so many workers as are asked for, as there are processors, or as
/// the configured command says. What is run is what was selected.
#[verifier::rlimit(40)]
pub proof fn tests_are_run_the_way_asked_for(
    c: RunCommand,
    state: RunState,
    event: RunEvent,
    cpus: nat,
)
    requires
        run_step(c, state, event, cpus).task matches Ok(RunTask::Execute(_, _)),
        match state.phase {
            RunPhase::Executing => false,
            RunPhase::AskingConcurrency => !c.subunit && c.concurrency is None,
            RunPhase::ListingForIsolation => !c.subunit && c.isolated && state.mode
                == ExecutionMode::Isolated,
            _ => true,
        },
        cpus <= usize::MAX,
    ensures
        ({
            let step = run_step(c, state, event, cpus);
            let mode = step.task->Ok_0->Execute_0;
            let workers: nat = match c.concurrency {
                Some(n) => if n == 0 {
                    cpus
                } else {
                    n as nat
                },
                None => match event {
                    RunEvent::Concurrency(Some(k)) => k as nat,
                    _ => 1,
                },
            };
            &&& step.task->Ok_0->Execute_1 == step.state.tests
            &&& step.state.phase == RunPhase::Executing
            &&& step.state.mode == mode
            &&& step.state.iteration == state.iteration
            &&& c.subunit ==> mode == ExecutionMode::Subunit
            &&& !c.subunit && c.isolated ==> mode == ExecutionMode::Isolated
                && step.state.tests is Some && step.state.tests->0.len() > 0
            &&& !c.subunit && !c.isolated && workers > 1 ==> mode == ExecutionMode::Parallel(
                workers as usize,
            )
            &&& !c.subunit && !c.isolated && workers <= 1 ==> mode == ExecutionMode::Serial
        }),
{
    match event {
        RunEvent::Started(_) => {},
        RunEvent::AutoConfigured(_) => {},
        RunEvent::Opened(order) => {
            let s = RunState {
                configured_order: match order {
                    Some(s) => Some(s@),
                    None => None,
                },
                ..state
            };
            if state.phase == RunPhase::Opening && !c.failing_only {
                mode_of_filtered(
                    c,
                    RunState { tests: selected_names(c.test_ids_override), ..s },
                    cpus,
                );
            }
        },
        RunEvent::Tests(v) => {
            let s = RunState { tests: Some(test_names(v@)), ..state };
            match state.phase {
                RunPhase::ReadingFailing => {
                    mode_of_filtered(c, s, cpus);
                },
                RunPhase::ReadingList => {
                    mode_of_filtered(
                        c,
                        RunState {
                            tests: match state.tests {
                                Some(t) => Some(listed_in(t, test_names(v@))),
                                None => Some(test_names(v@)),
                            },
                            ..state
                        },
                        cpus,
                    );
                },
                RunPhase::ListingForFilter => {
                    mode_of_filtered(c, s, cpus);
                },
                RunPhase::ListingForStart => {
                    mode_of_started(c, s, cpus);
                },
                RunPhase::ListingForOrder => {
                    mode_of_ordered(c, s, cpus);
                },
                RunPhase::Sequencing => {
                    mode_of_chosen(c, s, cpus);
                },
                _ => {},
            }
        },
        RunEvent::Concurrency(_) => {},
        RunEvent::Executed { exit_code, run_id } => {},
    }
}

/// Whether a step that runs tests runs them the way that is asked for.
pub open spec fn runs_as_asked(c: RunCommand, state: RunState, step: RunStep, cpus: nat) -> bool {
    step.task matches Ok(RunTask::Execute(mode, tests)) ==> {
        &&& tests == step.state.tests
        &&& step.state.phase == RunPhase::Executing
        &&& step.state.mode == mode
        &&& step.state.iteration == state.iteration
        &&& c.subunit ==> mode == ExecutionMode::Subunit
        &&& !c.subunit ==> c.concurrency is Some
        &&& !c.subunit && c.isolated ==> mode == ExecutionMode::Isolated && tests is Some
            && tests->0.len() > 0
        &&& !c.subunit && !c.isolated ==> {
            let workers = if c.concurrency->0 == 0 {
                cpus
            } else {
                c.concurrency->0 as nat
            };
            mode == (if workers > 1 {
                ExecutionMode::Parallel(workers as usize)
            } else {
                ExecutionMode::Serial
            })
        }
    }
}

proof fn mode_of_chosen(c: RunCommand, state: RunState, cpus: nat)
    ensures
        runs_as_asked(c, state, choose_mode(c, state, cpus), cpus),
{
}

proof fn mode_of_ordered(c: RunCommand, state: RunState, cpus: nat)
    ensures
        runs_as_asked(c, state, order_tests(c, state, cpus), cpus),
{
    mode_of_chosen(c, state, cpus);
}

proof fn mode_of_started(c: RunCommand, state: RunState, cpus: nat)
    ensures
        runs_as_asked(c, state, take_starts(c, state, cpus), cpus),
{
    mode_of_ordered(c, state, cpus);
    if let (Some(v), Some(t)) = (c.starting_with, state.tests) {
        if let Ok(found) = starts(texts(v@), v@.len(), t).1 {
            mode_of_ordered(
                c,
                RunState { tests: Some(with_starts(found, t)), ..state },
                cpus,
            );
        }
    }
}

proof fn mode_of_filtered(c: RunCommand, state: RunState, cpus: nat)
    ensures
        runs_as_asked(c, state, filter_tests(c, state, cpus), cpus),
{
    mode_of_started(c, state, cpus);
    if let (Some(v), Some(t)) = (c.test_filters, state.tests) {
        mode_of_started(c, RunState { tests: Some(filtered(texts(v@), t)), ..state }, cpus);
    }
}

impl Command for RunCommand {
    fn name(&self) -> (r: &str)
        ensures
            r@ == "run"@,
    {
        "run"
    }

    fn help(&self) -> (r: &str)
        ensures
            r@ == "Run tests and load results into the repository"@,
    {
        "Run tests and load results into the repository"
    }
}

} // verus!
