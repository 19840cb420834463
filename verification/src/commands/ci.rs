//! Running tests for a service that runs tests.
//!
//! As in [`run`](crate::commands::run), what is to be done next is decided here and done by the
//! caller.

use vstd::prelude::*;
use vstd::string::*;

use crate::binary::{lengths, mean_seconds, parts_in, Binary};
use crate::collection::{entry_of, has_key, with_entry_laws, KeyedList, Named, TextMap, Keyed};
use crate::commands::ci_report::{filter_annotations, format_failure_groups_at, format_flaky_warnings, format_step_outputs, format_step_summary, group_block, format_group_block_with, group_part, is_among, is_hard, is_summary, kept_lines, skip_view, sorted_names, span_nanos, step_outputs, titles_of, warning_part, CiFormat, TestHistory};
use crate::commands::export::{error_annotation, export_github, format_error_annotation, github_part};
use crate::commands::run::{apply_filters, compile_filters, copy_tests, filtered, filtering_keeps_matches, filters_problem, matches_any, selected_names, starts_keep_matches, ExecutionMode};
use crate::commands::starts::{expand_starts, keep_starts, outputs_join, starts, with_starts};
use crate::commands::Command;
use crate::config::timeout::TimeoutSetting;
use crate::error::{Failure, Result};
use crate::flakiness::{count_history, failures_in, history, history_of, seen_in, tests_of};
use crate::gather::{gathered, reversed};
use crate::ordering::{order_text, TestOrder};
use crate::pattern::{regex_matches, Regexp};
use crate::repository::{is_failure, nanos_sum, test_names, RunId, TestId, TestResult, TestRun, TestStatus};
use crate::store::{run_refs, Store, StoredRun};
use crate::text::compose::{cat2, cat3, chars, slice, terminated, texts};
use crate::text::order::text_eq;
use crate::text::scan::{has_text, lines_of, lowercase, unicode_lowered};
use crate::time::{Duration, MAX_NANOS};
use crate::ui::{outputs, Line, Transcript};

verus! {

broadcast use {crate::text::compose::texts_push, crate::repository::test_names_push};

/// The format of a name in lower case.
pub open spec fn format_of(s: Seq<char>) -> Option<CiFormat> {
    if s == "auto"@ {
        Some(CiFormat::Auto)
    } else if s == "github"@ {
        Some(CiFormat::Github)
    } else if s == "gitlab"@ {
        Some(CiFormat::Gitlab)
    } else if s == "forgejo"@ || s == "codeberg"@ || s == "gitea"@ {
        Some(CiFormat::Forgejo)
    } else if s == "woodpecker"@ {
        Some(CiFormat::Woodpecker)
    } else if s == "plain"@ || s == "none"@ {
        Some(CiFormat::Plain)
    } else {
        None
    }
}

/// Whether the environment gives a variable a value.
pub open spec fn is_set(env: Seq<Named<String>>, name: Seq<char>, value: Seq<char>) -> bool {
    has_key(env, name) && entry_of(env, name).value@ == value
}

/// The format that the environment asks for.
pub open spec fn format_in(env: Seq<Named<String>>) -> CiFormat {
    if is_set(env, "FORGEJO_ACTIONS"@, "true"@) {
        CiFormat::Forgejo
    } else if is_set(env, "GITHUB_ACTIONS"@, "true"@) {
        CiFormat::Github
    } else if is_set(env, "GITLAB_CI"@, "true"@) {
        CiFormat::Gitlab
    } else if is_set(env, "CI"@, "woodpecker"@) {
        CiFormat::Woodpecker
    } else {
        CiFormat::Plain
    }
}

/// Whether the environment gives a variable a value.
fn env_is(env: &TextMap<String>, name: &str, value: &str) -> (r: bool)
    ensures
        r == is_set(env@, name@, value@),
{
    match env.get(name) {
        Some(v) => text_eq(v.as_str(), value),
        None => false,
    }
}

/// The format of a name in lower case.
fn format_named(s: &str) -> (r: Option<CiFormat>)
    ensures
        r == format_of(s@),
{
    if text_eq(s, "auto") {
        Some(CiFormat::Auto)
    } else if text_eq(s, "github") {
        Some(CiFormat::Github)
    } else if text_eq(s, "gitlab") {
        Some(CiFormat::Gitlab)
    } else if text_eq(s, "forgejo") || text_eq(s, "codeberg") || text_eq(s, "gitea") {
        Some(CiFormat::Forgejo)
    } else if text_eq(s, "woodpecker") {
        Some(CiFormat::Woodpecker)
    } else if text_eq(s, "plain") || text_eq(s, "none") {
        Some(CiFormat::Plain)
    } else {
        None
    }
}

impl CiFormat {
    /// The format of a name that is already in lower case.
    pub fn parse_lowered(s: &str) -> (r: core::result::Result<CiFormat, String>)
        ensures
            match format_of(s@) {
                Some(f) => r == Ok::<CiFormat, String>(f),
                None => r matches Err(m) && m@ == "unknown ci format '"@ + s@
                    + "': expected auto, github, gitlab, forgejo, woodpecker, or plain"@,
            },
    {
        match format_named(s) {
            Some(f) => Ok(f),
            None => Err(
                cat3(
                    "unknown ci format '",
                    s,
                    "': expected auto, github, gitlab, forgejo, woodpecker, or plain",
                ),
            ),
        }
    }

    /// The format of a name, in upper or lower case.
    pub fn parse(s: &str) -> (r: core::result::Result<CiFormat, String>)
        ensures
            match format_of(unicode_lowered(s@)) {
                Some(f) => r == Ok::<CiFormat, String>(f),
                None => r matches Err(m) && m@ == "unknown ci format '"@ + unicode_lowered(s@)
                    + "': expected auto, github, gitlab, forgejo, woodpecker, or plain"@,
            },
    {
        CiFormat::parse_lowered(lowercase(s).as_str())
    }

    /// This format; where it is to be found from the environment, the one found there.
    pub fn resolve(self, env: &TextMap<String>) -> (r: CiFormat)
        ensures
            r == (if self == CiFormat::Auto {
                format_in(env@)
            } else {
                self
            }),
    {
        if self != CiFormat::Auto {
            self
        } else if env_is(env, "FORGEJO_ACTIONS", "true") {
            CiFormat::Forgejo
        } else if env_is(env, "GITHUB_ACTIONS", "true") {
            CiFormat::Github
        } else if env_is(env, "GITLAB_CI", "true") {
            CiFormat::Gitlab
        } else if env_is(env, "CI", "woodpecker") {
            CiFormat::Woodpecker
        } else {
            CiFormat::Plain
        }
    }
}

impl core::str::FromStr for CiFormat {
    type Err = String;

    fn from_str(s: &str) -> core::result::Result<CiFormat, String> {
        CiFormat::parse(s)
    }
}

/// Command that runs tests for a service that runs tests.
#[derive(Debug)]
pub struct CiCommand {
    /// Where the project is.
    pub base_path: Option<String>,
    /// The form of what is said.
    pub format: CiFormat,
    /// How often to run failing tests again.
    pub retries: usize,
    /// The order of the tests.
    pub order: Option<TestOrder>,
    /// Patterns of which a test must match one.
    pub test_filters: Vec<String>,
    /// Starts of names of which a test must have one.
    pub starting_with: Vec<String>,
    /// How many workers to use.
    pub concurrency: Option<usize>,
    /// The timeout of each test.
    pub test_timeout: TimeoutSetting,
    /// The timeout of the run.
    pub max_duration: TimeoutSetting,
    /// Further arguments for the test command.
    pub test_args: Vec<String>,
    /// The profile to use.
    pub profile: Option<String>,
    /// Where to write a JUnit report.
    pub junit_path: Option<String>,
    /// Where to write the values for further jobs.
    pub dotenv_path: Option<String>,
    /// After how many failures to stop.
    pub max_failures: Option<usize>,
    /// By how much to lower the priority of the tests.
    pub nice: Option<i32>,
}

/// How a command is carried out.
#[derive(Clone, Copy, Debug, PartialEq, Eq, Structural)]
pub struct CiPlan {
    /// The form of what is said.
    pub format: CiFormat,
    /// The order of the tests.
    pub order: TestOrder,
    /// Whether failures are told as they happen.
    pub streaming: bool,
    /// Whether errors are, too: only where no test is run again.
    pub emit_errors_now: bool,
}

/// The order of tests where none is asked for: tests that fail often come first, where runs have
/// been recorded.
pub fn default_ci_order(recorded: Option<usize>) -> (r: TestOrder)
    ensures
        r == (if recorded is Some && recorded->0 > 0 {
            TestOrder::FrequentFailingFirst
        } else {
            TestOrder::Discovery
        }),
{
    match recorded {
        Some(n) => if n > 0 {
            TestOrder::FrequentFailingFirst
        } else {
            TestOrder::Discovery
        },
        None => TestOrder::Discovery,
    }
}

/// Takes note of results while tests are run.
#[derive(Debug)]
pub struct ResultCallback {
    /// After how many failures to stop.
    pub max_failures: Option<usize>,
    /// The failures that have been told, where they are told as they happen.
    pub streamed: Option<Vec<TestId>>,
    /// Whether errors are told.
    pub emit_errors_now: bool,
    /// The form of what is said.
    pub format: CiFormat,
    /// How many failures have been counted.
    pub failures: usize,
    /// Whether to stop.
    pub cancelled: bool,
}

/// What is said of a result while tests are run.
pub open spec fn streamed_text(c: ResultCallback, r: TestResult, ts: int) -> Seq<char> {
    if is_failure(r.status) && c.streamed is Some {
        group_block(r, c.format, ts) + (if c.emit_errors_now {
            error_annotation(r)
        } else {
            Seq::empty()
        })
    } else {
        Seq::empty()
    }
}

impl ResultCallback {
    /// Takes note of a result at a time, and gives what is to be said of it. Says to stop once
    /// there are as many failures as allowed.
    pub fn call(&mut self, result: &TestResult, ts: i64) -> (s: String)
        requires
            old(self).failures < usize::MAX,
        ensures
            s@ == streamed_text(*old(self), *result, ts as int),
            final(self).max_failures == old(self).max_failures,
            final(self).emit_errors_now == old(self).emit_errors_now,
            final(self).format == old(self).format,
            final(self).streamed is Some == old(self).streamed is Some,
            is_failure(result.status) && old(self).streamed is Some ==> test_names(
                final(self).streamed->0@,
            ) == test_names(old(self).streamed->0@).push(result.test_id@),
            !is_failure(result.status) ==> final(self).streamed == old(self).streamed,
            final(self).failures == old(self).failures + (if is_failure(result.status)
                && old(self).max_failures is Some {
                1int
            } else {
                0
            }),
            final(self).cancelled == (old(self).cancelled || (is_failure(result.status) && old(
                self,
            ).max_failures is Some && final(self).failures >= old(self).max_failures->0)),
    {
        let mut out = String::new();
        if !result.status.is_failure() {
            assert(out@ =~= Seq::<char>::empty());
            return out;
        }
        if let Some(ids) = &mut self.streamed {
            out = format_group_block_with(result, self.format, ts);
            if self.emit_errors_now {
                out.append(format_error_annotation(result).as_str());
            }
            ids.push(result.test_id.copy());
        }
        if let Some(limit) = self.max_failures {
            self.failures = self.failures + 1;
            if self.failures >= limit {
                self.cancelled = true;
            }
        }
        assert(out@ =~= streamed_text(*old(self), *result, ts as int));
        out
    }
}

/// What is to be done next.
#[derive(Debug)]
pub enum CiAction {
    /// Write a configuration.
    AutoConfigure,
    /// Open the repository, or create it, and read the configuration.
    OpenRepository,
    /// Tell which tests fail.
    ReadFailing,
    /// List the tests that the test command knows.
    ListTests,
    /// Choose an order by how often tests failed.
    ChooseOrder,
    /// Put tests in order.
    OrderTests {
        /// The order.
        order: TestOrder,
        /// The tests.
        tests: Vec<TestId>,
        /// Whether the tests that fail matter.
        with_failing: bool,
    },
    /// Tell how many workers to use, given how many are asked for.
    AskConcurrency(Option<usize>),
    /// Run tests and record the results; all tests where none are named.
    Execute {
        /// How to run them.
        mode: ExecutionMode,
        /// The tests.
        selection: Option<Vec<TestId>>,
        /// Whether tests that are not run keep failing.
        partial: bool,
    },
    /// End without a run.
    EarlyExit(i32),
    /// End with a run.
    Ran(RunId),
}

/// What came of an action.
#[derive(Debug)]
pub enum CiEvent {
    /// Whether there is a configuration.
    Started(bool),
    /// A configuration was written, with this exit code.
    AutoConfigured(i32),
    /// The repository was opened; the profile in use.
    Opened(Option<String>),
    /// Tests: those that fail, those that the command knows, or those put in order.
    Tests(Vec<TestId>),
    /// The chosen order.
    Chosen(TestOrder),
    /// How many workers to use, where that is set.
    Concurrency(Option<usize>),
    /// Tests were run and recorded.
    Executed(RunId),
}

/// What is waited for.
#[derive(Clone, Copy, Debug, PartialEq, Eq, Structural)]
pub enum CiPhase {
    /// To start.
    Start,
    /// The configuration to be written.
    AutoConfiguring,
    /// The repository to be opened.
    Opening,
    /// The tests that fail.
    ReadingFailing,
    /// The known tests, to filter them.
    ListingForFilter,
    /// The known tests, to take those with given starts.
    ListingForStart,
    /// The order.
    ChoosingOrder,
    /// The known tests, to order them.
    ListingForOrder,
    /// The tests in order.
    Sequencing,
    /// The number of workers.
    AskingConcurrency,
    /// The tests to be run.
    Executing,
    /// Nothing.
    Finished,
}

/// How far a run of the tests has come.
#[derive(Debug)]
pub struct CiProgress {
    /// What is waited for.
    pub phase: CiPhase,
    /// Whether only the tests that fail are run.
    pub failing_only: bool,
    /// The order of the tests.
    pub order: TestOrder,
    /// The tests to run, where they have been selected.
    pub tests: Option<Vec<TestId>>,
}

/// How far a run of the tests has come, as plain values.
pub struct CiState {
    /// See [`CiProgress::phase`].
    pub phase: CiPhase,
    /// See [`CiProgress::failing_only`].
    pub failing_only: bool,
    /// See [`CiProgress::order`].
    pub order: TestOrder,
    /// See [`CiProgress::tests`].
    pub tests: Option<Seq<Seq<char>>>,
}

impl View for CiProgress {
    type V = CiState;

    open spec fn view(&self) -> CiState {
        CiState {
            phase: self.phase,
            failing_only: self.failing_only,
            order: self.order,
            tests: selected_names(self.tests),
        }
    }
}

/// What is to be done next, as plain values.
pub enum CiTask {
    /// See [`CiAction::AutoConfigure`].
    AutoConfigure,
    /// See [`CiAction::OpenRepository`].
    OpenRepository,
    /// See [`CiAction::ReadFailing`].
    ReadFailing,
    /// See [`CiAction::ListTests`].
    ListTests,
    /// See [`CiAction::ChooseOrder`].
    ChooseOrder,
    /// See [`CiAction::OrderTests`].
    OrderTests(TestOrder, Seq<Seq<char>>, bool),
    /// See [`CiAction::AskConcurrency`].
    AskConcurrency(Option<usize>),
    /// See [`CiAction::Execute`].
    Execute(ExecutionMode, Option<Seq<Seq<char>>>, bool),
    /// See [`CiAction::EarlyExit`].
    EarlyExit(i32),
    /// See [`CiAction::Ran`].
    Ran(Seq<char>),
}

impl View for CiAction {
    type V = CiTask;

    open spec fn view(&self) -> CiTask {
        match self {
            CiAction::AutoConfigure => CiTask::AutoConfigure,
            CiAction::OpenRepository => CiTask::OpenRepository,
            CiAction::ReadFailing => CiTask::ReadFailing,
            CiAction::ListTests => CiTask::ListTests,
            CiAction::ChooseOrder => CiTask::ChooseOrder,
            CiAction::OrderTests { order, tests, with_failing } => CiTask::OrderTests(
                *order,
                test_names(tests@),
                *with_failing,
            ),
            CiAction::AskConcurrency(n) => CiTask::AskConcurrency(*n),
            CiAction::Execute { mode, selection, partial } => CiTask::Execute(
                *mode,
                selected_names(*selection),
                *partial,
            ),
            CiAction::EarlyExit(code) => CiTask::EarlyExit(*code),
            CiAction::Ran(id) => CiTask::Ran(id@),
        }
    }
}

/// One step: what is to be done or why the command fails, how far it has come, what was said.
pub struct CiStep {
    /// What is to be done next, or what is wrong.
    pub task: core::result::Result<CiTask, Failure>,
    /// How far the command has come.
    pub state: CiState,
    /// What was said.
    pub lines: Seq<Seq<char>>,
}

/// A step that says nothing.
pub open spec fn quiet(state: CiState, phase: CiPhase, task: CiTask) -> CiStep {
    CiStep { task: Ok(task), state: CiState { phase, ..state }, lines: Seq::empty() }
}

/// A step after something was said.
pub open spec fn after_saying(lines: Seq<Seq<char>>, step: CiStep) -> CiStep {
    CiStep { lines: lines + step.lines, ..step }
}

/// Asking how many workers to use.
pub open spec fn ask_concurrency(c: CiCommand, state: CiState) -> CiStep {
    quiet(state, CiPhase::AskingConcurrency, CiTask::AskConcurrency(c.concurrency))
}

/// Putting the tests in an order that has been chosen.
pub open spec fn order_tests(c: CiCommand, state: CiState) -> CiStep {
    if state.order == TestOrder::Discovery {
        ask_concurrency(c, state)
    } else {
        match state.tests {
            None => quiet(state, CiPhase::ListingForOrder, CiTask::ListTests),
            Some(t) => quiet(
                state,
                CiPhase::Sequencing,
                CiTask::OrderTests(
                    state.order,
                    t,
                    state.order == TestOrder::FailingFirst && !state.failing_only,
                ),
            ),
        }
    }
}

/// Choosing the order of the tests.
pub open spec fn choose_order(c: CiCommand, state: CiState) -> CiStep {
    if state.order == TestOrder::Auto {
        quiet(state, CiPhase::ChoosingOrder, CiTask::ChooseOrder)
    } else {
        order_tests(c, state)
    }
}

/// Taking the tests with given starts.
pub open spec fn take_starts(c: CiCommand, state: CiState) -> CiStep {
    let list = texts(c.starting_with@);
    if list.len() == 0 {
        choose_order(c, state)
    } else {
        match state.tests {
            None => quiet(state, CiPhase::ListingForStart, CiTask::ListTests),
            Some(t) => {
                let s = starts(list, list.len(), t);
                match s.1 {
                    Err(f) => CiStep { task: Err(f), state, lines: s.0 },
                    Ok(found) => after_saying(
                        s.0,
                        choose_order(c, CiState { tests: Some(with_starts(found, t)), ..state }),
                    ),
                }
            },
        }
    }
}

/// Keeping the tests that match one of the patterns.
pub open spec fn filter_tests(c: CiCommand, state: CiState) -> CiStep {
    let list = texts(c.test_filters@);
    if list.len() == 0 {
        take_starts(c, state)
    } else {
        match filters_problem(list) {
            Some(m) => CiStep { task: Err(Failure::Config(m)), state, lines: Seq::empty() },
            None => match state.tests {
                None => quiet(state, CiPhase::ListingForFilter, CiTask::ListTests),
                Some(t) => take_starts(
                    c,
                    CiState { tests: Some(filtered(list, t)), ..state },
                ),
            },
        }
    }
}

/// Whether an event is what is waited for.
pub open spec fn is_expected(p: CiProgress, event: CiEvent) -> bool {
    match p.phase {
        CiPhase::Start => event is Started,
        CiPhase::AutoConfiguring => event is AutoConfigured,
        CiPhase::Opening => event is Opened,
        CiPhase::ReadingFailing => event is Tests,
        CiPhase::ListingForFilter => event is Tests,
        CiPhase::ListingForStart => event is Tests,
        CiPhase::ChoosingOrder => event is Chosen,
        CiPhase::ListingForOrder => event is Tests,
        CiPhase::Sequencing => event is Tests,
        CiPhase::AskingConcurrency => event is Concurrency,
        CiPhase::Executing => event is Executed,
        CiPhase::Finished => false,
    }
}

/// The step that an event leads to.
pub open spec fn ci_step(c: CiCommand, state: CiState, event: CiEvent) -> CiStep {
    let opening = quiet(state, CiPhase::Opening, CiTask::OpenRepository);
    match (state.phase, event) {
        (CiPhase::Start, CiEvent::Started(configured)) => if !state.failing_only && !configured {
            quiet(state, CiPhase::AutoConfiguring, CiTask::AutoConfigure)
        } else {
            opening
        },
        (CiPhase::AutoConfiguring, CiEvent::AutoConfigured(code)) => if code != 0 {
            quiet(state, CiPhase::Finished, CiTask::EarlyExit(code))
        } else {
            opening
        },
        (CiPhase::Opening, CiEvent::Opened(profile)) => after_saying(
            match profile {
                Some(p) => seq!["Using profile: "@ + p@],
                None => Seq::empty(),
            },
            if state.failing_only {
                quiet(state, CiPhase::ReadingFailing, CiTask::ReadFailing)
            } else {
                filter_tests(c, state)
            },
        ),
        (CiPhase::ReadingFailing, CiEvent::Tests(v)) => if v@.len() == 0 {
            after_saying(
                seq!["No failing tests to run"@],
                quiet(state, CiPhase::Finished, CiTask::EarlyExit(0)),
            )
        } else {
            filter_tests(c, CiState { tests: Some(test_names(v@)), ..state })
        },
        (CiPhase::ListingForFilter, CiEvent::Tests(v)) => filter_tests(
            c,
            CiState { tests: Some(test_names(v@)), ..state },
        ),
        (CiPhase::ListingForStart, CiEvent::Tests(v)) => take_starts(
            c,
            CiState { tests: Some(test_names(v@)), ..state },
        ),
        (CiPhase::ChoosingOrder, CiEvent::Chosen(o)) => after_saying(
            seq!["Auto-selected test order: "@ + order_text(o)],
            order_tests(c, CiState { order: o, ..state }),
        ),
        (CiPhase::ListingForOrder, CiEvent::Tests(v)) => order_tests(
            c,
            CiState { tests: Some(test_names(v@)), ..state },
        ),
        (CiPhase::Sequencing, CiEvent::Tests(v)) => ask_concurrency(
            c,
            CiState { tests: Some(test_names(v@)), ..state },
        ),
        (CiPhase::AskingConcurrency, CiEvent::Concurrency(n)) => quiet(
            state,
            CiPhase::Executing,
            CiTask::Execute(
                match n {
                    Some(k) if k > 1 => ExecutionMode::Parallel(k),
                    _ => ExecutionMode::Serial,
                },
                state.tests,
                state.failing_only,
            ),
        ),
        (CiPhase::Executing, CiEvent::Executed(id)) => quiet(
            state,
            CiPhase::Finished,
            CiTask::Ran(id@),
        ),
        _ => quiet(state, state.phase, CiTask::EarlyExit(0)),
    }
}

/// Whether a call made a step.
pub open spec fn made_step(
    r: Result<CiAction>,
    after: CiProgress,
    said_before: Seq<Line>,
    said_after: Seq<Line>,
    step: CiStep,
) -> bool {
    &&& crate::error::outcome_view(r) == step.task
    &&& after@ == step.state
    &&& said_after == said_before + outputs(step.lines)
}

impl CiCommand {
    /// A command that sets nothing but the path.
    pub fn new(base_path: Option<String>) -> (r: Self)
        ensures
            r.base_path == base_path,
            r.format == CiFormat::Auto,
            r.retries == 0,
            r.order is None,
            r.test_filters@.len() == 0,
            r.starting_with@.len() == 0,
            r.concurrency is None,
            r.test_timeout == TimeoutSetting::Disabled,
            r.max_duration == TimeoutSetting::Disabled,
            r.test_args@.len() == 0,
            r.profile is None,
            r.junit_path is None,
            r.dotenv_path is None,
            r.max_failures is None,
            r.nice is None,
    {
        CiCommand {
            base_path,
            format: CiFormat::Auto,
            retries: 0,
            order: None,
            test_filters: Vec::new(),
            starting_with: Vec::new(),
            concurrency: None,
            test_timeout: TimeoutSetting::Disabled,
            max_duration: TimeoutSetting::Disabled,
            test_args: Vec::new(),
            profile: None,
            junit_path: None,
            dotenv_path: None,
            max_failures: None,
            nice: None,
        }
    }

    /// How the command is carried out in an environment, given how many runs are recorded.
    pub fn plan(&self, env: &TextMap<String>, recorded: Option<usize>) -> (r: CiPlan)
        ensures
            ({
                let format = if self.format == CiFormat::Auto {
                    format_in(env@)
                } else {
                    self.format
                };
                let streaming = format == CiFormat::Github || format == CiFormat::Gitlab;
                r == (CiPlan {
                    format,
                    order: match self.order {
                        Some(o) => o,
                        None => if recorded is Some && recorded->0 > 0 {
                            TestOrder::FrequentFailingFirst
                        } else {
                            TestOrder::Discovery
                        },
                    },
                    streaming,
                    emit_errors_now: streaming && self.retries == 0,
                })
            }),
    {
        let format: CiFormat = self.format.resolve(env);
        let streaming: bool = format == CiFormat::Github || format == CiFormat::Gitlab;
        let order: TestOrder = match self.order {
            Some(o) => o,
            None => default_ci_order(recorded),
        };
        CiPlan { format, order, streaming, emit_errors_now: streaming && self.retries == 0 }
    }

    /// What takes note of results while tests are run; nothing does where failures are neither
    /// told nor counted.
    pub fn build_result_callback(
        &self,
        streaming: bool,
        emit_errors_now: bool,
        format: CiFormat,
    ) -> (r: Option<ResultCallback>)
        ensures
            r is Some <==> streaming || self.max_failures is Some,
            r matches Some(c) ==> {
                &&& c.max_failures == self.max_failures
                &&& c.emit_errors_now == emit_errors_now
                &&& c.format == format
                &&& c.failures == 0
                &&& !c.cancelled
                &&& c.streamed is Some == streaming
                &&& streaming ==> c.streamed->0@.len() == 0
            },
    {
        if !streaming && self.max_failures.is_none() {
            return None;
        }
        let streamed: Option<Vec<TestId>> = if streaming {
            Some(Vec::new())
        } else {
            None
        };
        Some(
            ResultCallback {
                max_failures: self.max_failures,
                streamed,
                emit_errors_now,
                format,
                failures: 0,
                cancelled: false,
            },
        )
    }

    /// The start of a run of the tests, of all or of those that fail.
    pub fn begin(&self, order: TestOrder, failing_only: bool) -> (p: CiProgress)
        ensures
            p@ == (CiState { phase: CiPhase::Start, failing_only, order, tests: None }),
    {
        CiProgress { phase: CiPhase::Start, failing_only, order, tests: None }
    }

    /// Asks how many workers to use.
    fn ask_concurrency(&self, p: &mut CiProgress, ui: &Transcript) -> (r: Result<CiAction>)
        ensures
            made_step(r, *final(p), ui@, ui@, ask_concurrency(*self, old(p)@)),
    {
        p.phase = CiPhase::AskingConcurrency;
        assert(ui@ =~= ui@ + outputs(Seq::empty()));
        Ok(CiAction::AskConcurrency(self.concurrency))
    }

    /// Puts the tests in an order that has been chosen.
    fn order_tests(&self, p: &mut CiProgress, ui: &Transcript) -> (r: Result<CiAction>)
        ensures
            made_step(r, *final(p), ui@, ui@, order_tests(*self, old(p)@)),
    {
        assert(ui@ =~= ui@ + outputs(Seq::empty()));
        if p.order == TestOrder::Discovery {
            return self.ask_concurrency(p, ui);
        }
        match copy_tests(&p.tests) {
            None => {
                p.phase = CiPhase::ListingForOrder;
                Ok(CiAction::ListTests)
            },
            Some(tests) => {
                p.phase = CiPhase::Sequencing;
                Ok(
                    CiAction::OrderTests {
                        order: p.order,
                        tests,
                        with_failing: p.order == TestOrder::FailingFirst && !p.failing_only,
                    },
                )
            },
        }
    }

    /// Chooses the order of the tests.
    fn choose_order(&self, p: &mut CiProgress, ui: &Transcript) -> (r: Result<CiAction>)
        ensures
            made_step(r, *final(p), ui@, ui@, choose_order(*self, old(p)@)),
    {
        if p.order == TestOrder::Auto {
            p.phase = CiPhase::ChoosingOrder;
            assert(ui@ =~= ui@ + outputs(Seq::empty()));
            return Ok(CiAction::ChooseOrder);
        }
        self.order_tests(p, ui)
    }

    /// Takes the tests with given starts.
    fn take_starts(&self, p: &mut CiProgress, ui: &mut Transcript) -> (r: Result<CiAction>)
        ensures
            made_step(r, *final(p), old(ui)@, final(ui)@, take_starts(*self, old(p)@)),
    {
        if self.starting_with.len() == 0 {
            return self.choose_order(p, ui);
        }
        let kept: Vec<TestId> = match &p.tests {
            None => {
                p.phase = CiPhase::ListingForStart;
                assert(ui@ =~= old(ui)@ + outputs(Seq::empty()));
                return Ok(CiAction::ListTests);
            },
            Some(tests) => match expand_starts(&self.starting_with, tests, ui) {
                Err(e) => {
                    return Err(e);
                },
                Ok(found) => keep_starts(&found, tests),
            },
        };
        p.tests = Some(kept);
        let ghost said = ui@;
        let ghost list = texts(self.starting_with@);
        let ghost lines = starts(list, list.len(), old(p)@.tests->0).0;
        let ghost step = choose_order(*self, p@);
        let r: Result<CiAction> = self.choose_order(p, ui);
        proof {
            outputs_join(lines, step.lines);
            assert(ui@ =~= old(ui)@ + outputs(lines + step.lines));
        }
        r
    }

    /// Keeps the tests that match one of the patterns.
    fn filter_tests(&self, p: &mut CiProgress, ui: &mut Transcript) -> (r: Result<CiAction>)
        ensures
            made_step(r, *final(p), old(ui)@, final(ui)@, filter_tests(*self, old(p)@)),
    {
        if self.test_filters.len() == 0 {
            return self.take_starts(p, ui);
        }
        assert(ui@ =~= old(ui)@ + outputs(Seq::empty()));
        let compiled: Vec<Regexp> = match compile_filters(&self.test_filters) {
            Ok(v) => v,
            Err(e) => {
                return Err(e);
            },
        };
        let kept: Vec<TestId> = match &p.tests {
            None => {
                p.phase = CiPhase::ListingForFilter;
                return Ok(CiAction::ListTests);
            },
            Some(tests) => apply_filters(&compiled, tests),
        };
        p.tests = Some(kept);
        self.take_starts(p, ui)
    }

    /// Takes what came of the last action and says what is to be done next.
    pub fn advance(&self, p: &mut CiProgress, event: CiEvent, ui: &mut Transcript) -> (r: Result<
        CiAction,
    >)
        requires
            is_expected(*old(p), event),
        ensures
            made_step(r, *final(p), old(ui)@, final(ui)@, ci_step(*self, old(p)@, event)),
    {
        assert(ui@ =~= ui@ + outputs(Seq::empty()));
        match event {
            CiEvent::Started(configured) => {
                if !p.failing_only && !configured {
                    p.phase = CiPhase::AutoConfiguring;
                    return Ok(CiAction::AutoConfigure);
                }
                p.phase = CiPhase::Opening;
                Ok(CiAction::OpenRepository)
            },
            CiEvent::AutoConfigured(code) => {
                if code != 0 {
                    p.phase = CiPhase::Finished;
                    return Ok(CiAction::EarlyExit(code));
                }
                p.phase = CiPhase::Opening;
                Ok(CiAction::OpenRepository)
            },
            CiEvent::Opened(profile) => {
                let ghost mut lines: Seq<Seq<char>> = Seq::empty();
                if let Some(name) = &profile {
                    let line: String = cat2("Using profile: ", name.as_str());
                    ui.output(line.as_str());
                    proof {
                        lines = seq![line@];
                    }
                }
                assert(ui@ =~= old(ui)@ + outputs(lines));
                if p.failing_only {
                    p.phase = CiPhase::ReadingFailing;
                    assert(lines + Seq::empty() =~= lines);
                    return Ok(CiAction::ReadFailing);
                }
                let ghost step = filter_tests(*self, p@);
                let r: Result<CiAction> = self.filter_tests(p, ui);
                proof {
                    outputs_join(lines, step.lines);
                    assert(ui@ =~= old(ui)@ + outputs(lines + step.lines));
                }
                r
            },
            CiEvent::Tests(tests) => match p.phase {
                CiPhase::ReadingFailing => {
                    if tests.len() == 0 {
                        ui.output("No failing tests to run");
                        p.phase = CiPhase::Finished;
                        assert(ui@ =~= old(ui)@ + outputs(
                            seq!["No failing tests to run"@] + Seq::empty(),
                        ));
                        return Ok(CiAction::EarlyExit(0));
                    }
                    p.tests = Some(tests);
                    self.filter_tests(p, ui)
                },
                CiPhase::ListingForFilter => {
                    p.tests = Some(tests);
                    self.filter_tests(p, ui)
                },
                CiPhase::ListingForStart => {
                    p.tests = Some(tests);
                    self.take_starts(p, ui)
                },
                CiPhase::ListingForOrder => {
                    p.tests = Some(tests);
                    self.order_tests(p, ui)
                },
                _ => {
                    p.tests = Some(tests);
                    self.ask_concurrency(p, ui)
                },
            },
            CiEvent::Chosen(order) => {
                let line: String = cat2("Auto-selected test order: ", order.text().as_str());
                ui.output(line.as_str());
                p.order = order;
                let ghost step = order_tests(*self, p@);
                let r: Result<CiAction> = self.order_tests(p, ui);
                proof {
                    outputs_join(seq![line@], step.lines);
                    assert(ui@ =~= old(ui)@ + outputs(seq![line@] + step.lines));
                }
                r
            },
            CiEvent::Concurrency(n) => {
                p.phase = CiPhase::Executing;
                let mode: ExecutionMode = match n {
                    Some(k) if k > 1 => ExecutionMode::Parallel(k),
                    _ => ExecutionMode::Serial,
                };
                Ok(
                    CiAction::Execute {
                        mode,
                        selection: copy_tests(&p.tests),
                        partial: p.failing_only,
                    },
                )
            },
            CiEvent::Executed(id) => {
                p.phase = CiPhase::Finished;
                Ok(CiAction::Ran(id))
            },
        }
    }
}

/// A text without line feeds at its end.
pub open spec fn without_feeds(s: Seq<char>) -> Seq<char>
    decreases s.len(),
{
    if s.len() > 0 && s.last() == '\n' {
        without_feeds(s.drop_last())
    } else {
        s
    }
}

/// A text without line feeds at its end.
fn trim_feeds(s: &str) -> (r: String)
    ensures
        r@ == without_feeds(s@),
{
    let v: Vec<char> = chars(s);
    let mut n: usize = v.len();
    assert(v@.take(n as int) =~= v@);
    while n > 0 && v[n - 1] == '\n'
        invariant
            n <= v@.len(),
            without_feeds(v@.take(n as int)) == without_feeds(v@),
        decreases n,
    {
        assert(v@.take(n as int).drop_last() =~= v@.take(n - 1));
        n -= 1;
    }
    let r: String = slice(&v, 0, n);
    assert(r@ =~= v@.take(n as int));
    r
}

/// The names of the failures that did not pass when they were run again.
pub open spec fn hard_names(s: Seq<TestResult>, flaky: Seq<TestId>) -> Seq<Seq<char>>
    decreases s.len(),
{
    if s.len() == 0 {
        Seq::empty()
    } else {
        let before = hard_names(s.drop_last(), flaky);
        if is_hard(s.last(), flaky) {
            before.push(s.last().test_id@)
        } else {
            before
        }
    }
}

/// The failures that did not pass when they were run again.
fn hard_tests(run: &TestRun, flaky: &Vec<TestId>) -> (r: Vec<TestId>)
    ensures
        test_names(r@) == hard_names(run.results@, flaky@),
{
    let v: &Vec<TestResult> = run.results.entries();
    let mut r: Vec<TestId> = Vec::new();
    assert(test_names(r@) =~= hard_names(v@.take(0), flaky@));
    for i in 0..v.len()
        invariant
            v@ == run.results@,
            test_names(r@) == hard_names(v@.take(i as int), flaky@),
    {
        assert(v@.take(i + 1).drop_last() =~= v@.take(i as int));
        if v[i].status.is_failure() && !is_among(flaky, v[i].test_id.as_str()) {
            r.push(v[i].test_id.copy());
        }
    }
    assert(v@.take(v@.len() as int) =~= v@);
    r
}

/// What is said of a run at its end to a service that takes commands in the output.
pub open spec fn closing_text(
    s: Seq<TestResult>,
    flaky: Seq<TestId>,
    format: CiFormat,
    streamed: Option<Seq<TestId>>,
    errors_done: bool,
    ts: int,
) -> Seq<char> {
    gathered(group_part(s, streamed, format, ts), s.len()) + gathered(
        warning_part(s, sorted_names(flaky)),
        flaky.len(),
    ) + (if errors_done {
        Seq::empty()
    } else {
        terminated(
            kept_lines(
                lines_of(gathered(github_part(s), s.len())),
                titles_of(hard_names(s, flaky)),
            ),
            "\n"@,
        )
    })
}

/// A text for a file.
#[derive(Debug)]
pub struct FileText {
    /// Where the file is.
    pub path: String,
    /// The text.
    pub text: String,
}

/// What is to be written into files at the end of a run.
#[derive(Debug)]
pub struct CiFiles {
    /// A summary, which takes the place of what is in the file.
    pub summary: Option<FileText>,
    /// Values for further steps, which go behind what is in the file.
    pub outputs: Option<FileText>,
}

/// Whether `file` is to be written where the environment names a file, and what.
pub open spec fn is_file_for(file: Option<FileText>, env: Seq<Named<String>>, name: Seq<char>) -> bool {
    &&& file is Some <==> has_key(env, name)
    &&& file is Some ==> file->0.path@ == entry_of(env, name).value@
}

/// The values for further steps, where the environment names a file for them.
pub fn write_github_output(
    env: &TextMap<String>,
    run: &TestRun,
    flaky: &Vec<TestId>,
    run_id: &RunId,
    duration: Duration,
) -> (r: Option<FileText>)
    ensures
        is_file_for(r, env@, "GITHUB_OUTPUT"@),
        r is Some ==> r->0.text@ == step_outputs(run.results@, flaky@.len(), run_id@, duration@),
{
    match env.get("GITHUB_OUTPUT") {
        None => None,
        Some(path) => Some(
            FileText {
                path: path.clone(),
                text: format_step_outputs(run, flaky, run_id, duration),
            },
        ),
    }
}

/// Says what is to be said at the end of a run, at the time `ts`, and gives what is to be written
/// into files. Blocks of tests in `already_streamed` are not said again.
pub fn emit_ci_output(
    ui: &mut Transcript,
    run: &TestRun,
    flaky: &Vec<TestId>,
    format: CiFormat,
    env: &TextMap<String>,
    already_streamed: Option<&Vec<TestId>>,
    streamed_errors_already: bool,
    run_id: &RunId,
    duration: Duration,
    history: &TextMap<TestHistory>,
    baseline_duration: Option<Duration>,
    ts: i64,
) -> (r: CiFiles)
    requires
        nanos_sum(run.results@) <= MAX_NANOS,
    ensures
        ({
            let text = closing_text(
                run.results@,
                flaky@,
                format,
                skip_view(already_streamed),
                streamed_errors_already,
                ts as int,
            );
            final(ui)@ == old(ui)@ + (if (format == CiFormat::Github || format == CiFormat::Gitlab)
                && text.len() > 0 {
                seq![Line::Output(without_feeds(text))]
            } else {
                Seq::empty()
            })
        }),
        if format == CiFormat::Github {
            is_file_for(r.summary, env@, "GITHUB_STEP_SUMMARY"@)
        } else {
            r.summary is None
        },
        r.summary is Some ==> exists|lines: Seq<Seq<char>>| #[trigger]
            is_summary(
                lines,
                *run,
                flaky@,
                history@,
                duration@,
                span_nanos(baseline_duration),
            ) && r.summary->0.text@ == terminated(lines, "\n"@),
        if format == CiFormat::Github || format == CiFormat::Forgejo {
            is_file_for(r.outputs, env@, "GITHUB_OUTPUT"@)
        } else {
            r.outputs is None
        },
        r.outputs is Some ==> r.outputs->0.text@ == step_outputs(
            run.results@,
            flaky@.len(),
            run_id@,
            duration@,
        ),
{
    if format == CiFormat::Forgejo {
        assert(ui@ =~= old(ui)@ + Seq::empty());
        return CiFiles {
            summary: None,
            outputs: write_github_output(env, run, flaky, run_id, duration),
        };
    }
    if format != CiFormat::Github && format != CiFormat::Gitlab {
        assert(ui@ =~= old(ui)@ + Seq::empty());
        return CiFiles { summary: None, outputs: None };
    }
    let mut out: String = format_failure_groups_at(run, already_streamed, format, ts);
    out.append(format_flaky_warnings(run, flaky).as_str());
    if !streamed_errors_already {
        let keep: Vec<TestId> = hard_tests(run, flaky);
        let all: String = export_github(run);
        out.append(filter_annotations(all.as_str(), &keep).as_str());
    }
    assert(out@ =~= closing_text(
        run.results@,
        flaky@,
        format,
        skip_view(already_streamed),
        streamed_errors_already,
        ts as int,
    ));
    if !out.as_str().is_empty() {
        ui.output(trim_feeds(out.as_str()).as_str());
    }
    assert(ui@ =~= old(ui)@ + (if out@.len() > 0 {
        seq![Line::Output(without_feeds(out@))]
    } else {
        Seq::empty()
    }));
    if format != CiFormat::Github {
        return CiFiles { summary: None, outputs: None };
    }
    let summary: Option<FileText> = match env.get("GITHUB_STEP_SUMMARY") {
        None => None,
        Some(path) => Some(
            FileText {
                path: path.clone(),
                text: format_step_summary(run, flaky, history, duration, baseline_duration),
            },
        ),
    };
    CiFiles { summary, outputs: write_github_output(env, run, flaky, run_id, duration) }
}

/// The runs other than one.
pub open spec fn other_runs(runs: Seq<StoredRun>, current: Seq<char>) -> Seq<StoredRun>
    decreases runs.len(),
{
    if runs.len() == 0 {
        Seq::empty()
    } else {
        let before = other_runs(runs.drop_last(), current);
        if runs.last().run.id@ == current {
            before
        } else {
            before.push(runs.last())
        }
    }
}

/// The latest runs other than one, at most `window` of them.
pub open spec fn recent_runs(runs: Seq<StoredRun>, current: Seq<char>, window: nat) -> Seq<
    StoredRun,
> {
    let all = other_runs(runs, current);
    if all.len() > window {
        all.skip(all.len() - window)
    } else {
        all
    }
}

/// The latest runs other than one, at most `window` of them.
fn collect_recent<'a>(store: &'a Store, current: &RunId, window: usize) -> (r: Vec<&'a StoredRun>)
    ensures
        r@ == run_refs(recent_runs(store.runs@, current@, window as nat)),
{
    let mut others: Vec<&'a StoredRun> = Vec::new();
    assert(others@ =~= run_refs(other_runs(store.runs@.take(0), current@)));
    for i in 0..store.runs.len()
        invariant
            others@ == run_refs(other_runs(store.runs@.take(i as int), current@)),
    {
        assert(store.runs@.take(i + 1).drop_last() =~= store.runs@.take(i as int));
        if !text_eq(store.runs[i].run.id.as_str(), current.as_str()) {
            others.push(&store.runs[i]);
        }
        assert(others@ =~= run_refs(other_runs(store.runs@.take(i + 1), current@)));
    }
    assert(store.runs@.take(store.runs@.len() as int) =~= store.runs@);
    let ghost all = other_runs(store.runs@, current@);
    assert(others@.len() == all.len());
    let n: usize = others.len();
    let from: usize = if n > window {
        n - window
    } else {
        0
    };
    let mut r: Vec<&'a StoredRun> = Vec::new();
    for i in from..n
        invariant
            n == others@.len(),
            from <= n,
            others@ == run_refs(all),
            r@ =~= run_refs(all).subrange(from as int, i as int),
    {
        r.push(others[i]);
    }
    assert(r@ =~= run_refs(recent_runs(store.runs@, current@, window as nat)));
    r
}

/// Whether `h` tells how each test fared in the runs.
pub open spec fn is_history(h: Seq<Named<TestHistory>>, window: Seq<&StoredRun>) -> bool {
    forall|t: Seq<char>| #[trigger] has_key(h, t) == seen_in(window, window.len() as int, t) && (
    has_key(h, t) ==> entry_of(h, t).value == (TestHistory {
        failures: failures_in(history_of(window, t)) as usize,
        runs_seen: history_of(window, t).len() as usize,
    }))
}

/// How many runs before the current one count for how tests fared and how long runs took.
pub const HISTORY_WINDOW: usize = 10;

/// How each test fared in the latest runs before the current one, at most `window` of them.
pub fn collect_test_history(store: &Store, current: &RunId, window: usize) -> (r: TextMap<
    TestHistory,
>)
    ensures
        is_history(r@, run_refs(recent_runs(store.runs@, current@, window as nat))),
{
    let recent: Vec<&StoredRun> = collect_recent(store, current, window);
    let names: Vec<String> = tests_of(&recent);
    let ghost all = texts(names@);
    let mut r: TextMap<TestHistory> = KeyedList::new();
    for i in 0..names.len()
        invariant
            all == texts(names@),
            forall|t: Seq<char>| #[trigger]
                has_key(r@, t) <==> exists|k: int| 0 <= k < i && #[trigger] all[k] == t,
            forall|t: Seq<char>| #[trigger]
                has_key(r@, t) ==> entry_of(r@, t).value == (TestHistory {
                    failures: failures_in(history_of(recent@, t)) as usize,
                    runs_seen: history_of(recent@, t).len() as usize,
                }),
    {
        let h: Vec<bool> = history(&recent, names[i].as_str());
        let id: TestId = TestId::new(names[i].as_str());
        let c: crate::flakiness::TestFlakiness = count_history(&id, &h);
        let value: TestHistory = TestHistory { failures: c.failures, runs_seen: c.runs };
        let e: Named<TestHistory> = Named { name: names[i].clone(), value };
        let ghost before = r@;
        let ghost g = e;
        let _ = r.entries();
        r.put(e);
        proof {
            with_entry_laws(before, g);
            let t0 = all[i as int];
            assert(t0 == names@[i as int]@);
            assert(g.key_text() == t0);
            assert forall|t: Seq<char>| #[trigger]
                has_key(r@, t) <==> exists|k: int| 0 <= k < i + 1 && #[trigger] all[k] == t by {
                if t == t0 {
                    assert(all[i as int] == t);
                } else if has_key(r@, t) {
                    assert(has_key(before, t));
                    let k = choose|k: int| 0 <= k < i && #[trigger] all[k] == t;
                    assert(all[k] == t);
                } else {
                    assert(!has_key(before, t));
                }
            }
            assert forall|t: Seq<char>| #[trigger] has_key(r@, t) implies entry_of(r@, t).value
                == (TestHistory {
                failures: failures_in(history_of(recent@, t)) as usize,
                runs_seen: history_of(recent@, t).len() as usize,
            }) by {
                if t != t0 {
                    assert(has_key(before, t));
                }
            }
        }
    }
    proof {
        assert forall|t: Seq<char>| #[trigger] has_key(r@, t) implies seen_in(
            recent@,
            recent@.len() as int,
            t,
        ) by {
            let k = choose|k: int| 0 <= k < all.len() && #[trigger] all[k] == t;
            assert(all.contains(t));
        }
        assert forall|t: Seq<char>| seen_in(recent@, recent@.len() as int, t) implies #[trigger]
            has_key(r@, t) by {
            assert(all.contains(t));
            let k = choose|k: int| 0 <= k < all.len() && all[k] == t;
            assert(all[k] == t);
        }
    }
    r
}

/// The recorded durations of runs.
pub open spec fn span_part(window: Seq<&StoredRun>) -> spec_fn(int) -> Seq<nat> {
    |i: int|
        match window[i].metadata.duration {
            Some(d) => seq![d@],
            None => Seq::empty(),
        }
}

/// The mean of the recorded durations of runs in nanoseconds, where there are any. They are added
/// from the last one to the first.
pub open spec fn mean_span(window: Seq<&StoredRun>) -> Option<nat> {
    let all = gathered(span_part(window), window.len());
    if all.len() == 0 {
        None
    } else {
        Some(parts_in(mean_seconds(all.reverse()), 1_000_000_000))
    }
}

/// The recorded durations of runs.
pub(crate) fn recorded_spans(window: &Vec<&StoredRun>) -> (r: Vec<Duration>)
    ensures
        lengths(r@) == gathered(span_part(window@), window@.len()),
{
    let ghost part = span_part(window@);
    let mut r: Vec<Duration> = Vec::new();
    for i in 0..window.len()
        invariant
            part == span_part(window@),
            lengths(r@) =~= gathered(part, i as nat),
    {
        if let Some(d) = window[i].metadata.duration {
            r.push(d);
        }
    }
    r
}

/// How long the latest runs before the current one took on average, at most `window` of them.
pub fn collect_recent_duration_avg(store: &Store, current: &RunId, window: usize) -> (r: Option<
    Duration,
>)
    requires
        mean_span(run_refs(recent_runs(store.runs@, current@, window as nat))) matches Some(n) ==> n
            <= MAX_NANOS,
    ensures
        span_nanos(r) == mean_span(run_refs(recent_runs(store.runs@, current@, window as nat))),
{
    let recent: Vec<&StoredRun> = collect_recent(store, current, window);
    let spans: Vec<Duration> = recorded_spans(&recent);
    let ghost all = lengths(spans@);
    let spans: Vec<Duration> = reversed(spans);
    assert(lengths(spans@) =~= all.reverse());
    match Binary::mean(&spans) {
        Some(m) => m.to_span(),
        None => None,
    }
}

/// Whether a run has a success of a test.
pub open spec fn passed(s: Seq<TestResult>, name: Seq<char>) -> bool {
    has_key(s, name) && entry_of(s, name).status == TestStatus::Success
}

/// The names for which a run has no success.
pub open spec fn not_recovered(names: Seq<Seq<char>>, s: Seq<TestResult>) -> Seq<Seq<char>>
    decreases names.len(),
{
    if names.len() == 0 {
        Seq::empty()
    } else {
        let before = not_recovered(names.drop_last(), s);
        if passed(s, names.last()) {
            before
        } else {
            before.push(names.last())
        }
    }
}

/// The names that another list does not have.
pub open spec fn missing_in(names: Seq<Seq<char>>, list: Seq<Seq<char>>) -> Seq<Seq<char>>
    decreases names.len(),
{
    if names.len() == 0 {
        Seq::empty()
    } else {
        let before = missing_in(names.drop_last(), list);
        if has_text(list, names.last()) {
            before
        } else {
            before.push(names.last())
        }
    }
}

/// Running failing tests again.
#[derive(Debug)]
pub struct Retries {
    /// The tests that failed at first.
    pub initial: Vec<TestId>,
    /// Those that have not passed since.
    pub still_failing: Vec<TestId>,
    /// How often tests have been run again.
    pub done: usize,
}

impl Retries {
    /// Nothing has been run again.
    pub fn new(failing: &Vec<TestId>) -> (r: Retries)
        ensures
            test_names(r.initial@) == test_names(failing@),
            test_names(r.still_failing@) == test_names(failing@),
            r.done == 0,
    {
        Retries { initial: copy_all(failing), still_failing: copy_all(failing), done: 0 }
    }

    /// Whether to run the failing tests again.
    pub fn wants_more(&self, retries: usize) -> (r: bool)
        ensures
            r == (self.done < retries && self.still_failing@.len() > 0),
    {
        self.done < retries && self.still_failing.len() > 0
    }

    /// Takes note of one more run, where there was one.
    pub fn record(&mut self, run: Option<&TestRun>)
        requires
            old(self).done < usize::MAX,
        ensures
            final(self).initial == old(self).initial,
            final(self).done == old(self).done + 1,
            test_names(final(self).still_failing@) == match run {
                Some(t) => not_recovered(test_names(old(self).still_failing@), t.results@),
                None => test_names(old(self).still_failing@),
            },
    {
        self.done = self.done + 1;
        if let Some(t) = run {
            self.still_failing = drop_recovered(&self.still_failing, t);
        }
    }

    /// The tests that failed at first and passed later.
    pub fn flaky(&self) -> (r: Vec<TestId>)
        ensures
            test_names(r@) == missing_in(
                test_names(self.initial@),
                test_names(self.still_failing@),
            ),
    {
        let ghost names = test_names(self.initial@);
        let ghost list = test_names(self.still_failing@);
        let mut r: Vec<TestId> = Vec::new();
        assert(test_names(r@) =~= missing_in(names.take(0), list));
        for i in 0..self.initial.len()
            invariant
                names == test_names(self.initial@),
                list == test_names(self.still_failing@),
                test_names(r@) == missing_in(names.take(i as int), list),
        {
            assert(names.take(i + 1).drop_last() =~= names.take(i as int));
            if !is_among(&self.still_failing, self.initial[i].as_str()) {
                r.push(self.initial[i].copy());
            }
        }
        assert(names.take(names.len() as int) =~= names);
        r
    }

    /// The exit code: zero where no test fails.
    pub fn exit_code(&self) -> (r: i32)
        ensures
            r == (if self.still_failing@.len() == 0 {
                0i32
            } else {
                1
            }),
    {
        if self.still_failing.len() == 0 {
            0
        } else {
            1
        }
    }
}

/// The same tests once more.
fn copy_all(tests: &Vec<TestId>) -> (r: Vec<TestId>)
    ensures
        test_names(r@) == test_names(tests@),
{
    let mut r: Vec<TestId> = Vec::new();
    for i in 0..tests.len()
        invariant
            test_names(r@) =~= test_names(tests@).take(i as int),
    {
        r.push(tests[i].copy());
    }
    assert(test_names(r@) =~= test_names(tests@));
    r
}

/// The tests for which a run has no success.
fn drop_recovered(tests: &Vec<TestId>, run: &TestRun) -> (r: Vec<TestId>)
    ensures
        test_names(r@) == not_recovered(test_names(tests@), run.results@),
{
    let ghost names = test_names(tests@);
    let mut r: Vec<TestId> = Vec::new();
    assert(test_names(r@) =~= not_recovered(names.take(0), run.results@));
    for i in 0..tests.len()
        invariant
            names == test_names(tests@),
            test_names(r@) == not_recovered(names.take(i as int), run.results@),
    {
        assert(names.take(i + 1).drop_last() =~= names.take(i as int));
        let recovered: bool = match run.results.find(tests[i].as_str()) {
            Some(t) => t.status == TestStatus::Success,
            None => false,
        };
        if !recovered {
            r.push(tests[i].copy());
        }
    }
    assert(names.take(names.len() as int) =~= names);
    r
}

/// What a list does not have is what stays of the names: each name is in the list or missing in
/// it.
proof fn missing_is(names: Seq<Seq<char>>, list: Seq<Seq<char>>, t: Seq<char>)
    ensures
        has_text(missing_in(names, list), t) == (has_text(names, t) && !has_text(list, t)),
    decreases names.len(),
{
    if names.len() > 0 {
        let init = names.drop_last();
        let before = missing_in(init, list);
        missing_is(init, list, t);
        let all = missing_in(names, list);
        if has_text(names, t) {
            let i = choose|i: int| 0 <= i < names.len() && #[trigger] names[i] == t;
            if i < init.len() {
                assert(init[i] == t);
            }
        }
        if has_text(init, t) {
            let i = choose|i: int| 0 <= i < init.len() && #[trigger] init[i] == t;
            assert(names[i] == t);
        }
        assert(names[names.len() - 1] == names.last());
        if has_text(all, t) {
            let i = choose|i: int| 0 <= i < all.len() && #[trigger] all[i] == t;
            if i < before.len() {
                assert(before[i] == t);
            }
        }
        if has_text(before, t) {
            let i = choose|i: int| 0 <= i < before.len() && #[trigger] before[i] == t;
            assert(all[i] == t);
        }
        if !has_text(list, names.last()) {
            assert(all[all.len() - 1] == names.last());
        }
    }
}

/// A test that failed at first either still fails or is flaky, and not both.
pub proof fn failures_are_hard_or_flaky(r: Retries, t: Seq<char>)
    requires
        has_text(test_names(r.initial@), t),
    ensures
        has_text(
            missing_in(test_names(r.initial@), test_names(r.still_failing@)),
            t,
        ) != has_text(test_names(r.still_failing@), t),
{
    missing_is(test_names(r.initial@), test_names(r.still_failing@), t);
}

/// A test still fails after one more run exactly if it did before and the run has no success of
/// it.
pub proof fn recovery_needs_success(names: Seq<Seq<char>>, s: Seq<TestResult>, t: Seq<char>)
    ensures
        has_text(not_recovered(names, s), t) == (has_text(names, t) && !passed(s, t)),
    decreases names.len(),
{
    if names.len() > 0 {
        let init = names.drop_last();
        let before = not_recovered(init, s);
        recovery_needs_success(init, s, t);
        let all = not_recovered(names, s);
        if has_text(names, t) {
            let i = choose|i: int| 0 <= i < names.len() && #[trigger] names[i] == t;
            if i < init.len() {
                assert(init[i] == t);
            }
        }
        if has_text(init, t) {
            let i = choose|i: int| 0 <= i < init.len() && #[trigger] init[i] == t;
            assert(names[i] == t);
        }
        assert(names[names.len() - 1] == names.last());
        if has_text(all, t) {
            let i = choose|i: int| 0 <= i < all.len() && #[trigger] all[i] == t;
            if i < before.len() {
                assert(before[i] == t);
            }
        }
        if has_text(before, t) {
            let i = choose|i: int| 0 <= i < before.len() && #[trigger] before[i] == t;
            assert(all[i] == t);
        }
        if !passed(s, names.last()) {
            assert(all[all.len() - 1] == names.last());
        }
    }
}

/// Tests that still fail after being run again, run after run.
pub open spec fn failing_after(names: Seq<Seq<char>>, runs: Seq<Seq<TestResult>>) -> Seq<Seq<char>>
    decreases runs.len(),
{
    if runs.len() == 0 {
        names
    } else {
        not_recovered(failing_after(names, runs.drop_last()), runs.last())
    }
}

/// A test that failed at first fails in the end exactly if none of the runs after it has a success
/// of it. That another run has no result of it, or one that is neither a success nor a failure,
/// makes no difference.
pub proof fn failures_last_until_a_success(
    names: Seq<Seq<char>>,
    runs: Seq<Seq<TestResult>>,
    t: Seq<char>,
)
    ensures
        has_text(failing_after(names, runs), t) <==> has_text(names, t) && forall|k: int|
            0 <= k < runs.len() ==> !(has_key(#[trigger] runs[k], t) && entry_of(runs[k], t).status
                == TestStatus::Success),
    decreases runs.len(),
{
    if runs.len() > 0 {
        let init = runs.drop_last();
        failures_last_until_a_success(names, init, t);
        recovery_needs_success(failing_after(names, init), runs.last(), t);
        assert(runs[runs.len() - 1] == runs.last());
        if forall|k: int|
            0 <= k < runs.len() ==> !(has_key(#[trigger] runs[k], t) && entry_of(runs[k], t).status
                == TestStatus::Success) {
            assert forall|k: int| 0 <= k < init.len() implies !(has_key(#[trigger] init[k], t)
                && entry_of(init[k], t).status == TestStatus::Success) by {
                assert(runs[k] == init[k]);
            }
        }
        if forall|k: int|
            0 <= k < init.len() ==> !(has_key(#[trigger] init[k], t) && entry_of(init[k], t).status
                == TestStatus::Success) {
            assert forall|k: int|
                0 <= k < runs.len() && !(has_key(runs.last(), t) && entry_of(runs.last(), t).status
                    == TestStatus::Success) implies !(has_key(#[trigger] runs[k], t) && entry_of(
                runs[k],
                t,
            ).status == TestStatus::Success) by {
                if k < init.len() {
                    assert(runs[k] == init[k]);
                }
            }
        }
    }
}

/// The failures that are hard are those of the run that are not among the flaky ones.
pub proof fn hard_failures_are(s: Seq<TestResult>, flaky: Seq<TestId>, t: Seq<char>)
    ensures
        has_text(hard_names(s, flaky), t) <==> (exists|i: int|
            0 <= i < s.len() && is_failure((#[trigger] s[i]).status) && s[i].test_id@ == t)
            && !has_text(test_names(flaky), t),
    decreases s.len(),
{
    let all = hard_names(s, flaky);
    if s.len() > 0 {
        let init = s.drop_last();
        let before = hard_names(init, flaky);
        hard_failures_are(init, flaky, t);
        assert(s[s.len() - 1] == s.last());
        if has_text(all, t) {
            let k = choose|k: int| 0 <= k < all.len() && #[trigger] all[k] == t;
            if k < before.len() {
                assert(before[k] == t);
                let i = choose|i: int|
                    0 <= i < init.len() && is_failure((#[trigger] init[i]).status)
                        && init[i].test_id@ == t;
                assert(is_failure(s[i].status) && s[i].test_id@ == t);
            } else {
                assert(is_failure(s[s.len() - 1].status));
            }
        }
        if (exists|i: int|
            0 <= i < s.len() && is_failure((#[trigger] s[i]).status) && s[i].test_id@ == t)
            && !has_text(test_names(flaky), t) {
            let i = choose|i: int|
                0 <= i < s.len() && is_failure((#[trigger] s[i]).status) && s[i].test_id@ == t;
            if i < init.len() {
                assert(is_failure(init[i].status) && init[i].test_id@ == t);
                let k = choose|k: int| 0 <= k < before.len() && #[trigger] before[k] == t;
                assert(all[k] == t);
            } else {
                assert(all[all.len() - 1] == t);
            }
        }
    }
}

/// A run counts as recent exactly if it is not the current one and fewer than so many other runs
/// were recorded after it.
pub proof fn recent_runs_are_the_latest_others(
    runs: Seq<StoredRun>,
    current: Seq<char>,
    window: nat,
    i: int,
)
    requires
        0 <= i < runs.len(),
        forall|a: int, b: int|
            0 <= a < b < runs.len() ==> (#[trigger] runs[a]).run.id@ != (#[trigger] runs[b]).run.id@,
    ensures
        recent_runs(runs, current, window).contains(runs[i]) <==> runs[i].run.id@ != current
            && other_runs(runs.skip(i + 1), current).len() < window,
        recent_runs(runs, current, window).len() <= window,
        forall|x: StoredRun| #[trigger]
            recent_runs(runs, current, window).contains(x) ==> runs.contains(x) && x.run.id@
                != current,
{
    let all = other_runs(runs, current);
    let recent = recent_runs(runs, current, window);
    others_split(runs.take(i + 1), runs.skip(i + 1), current);
    assert(runs.take(i + 1) + runs.skip(i + 1) =~= runs);
    let head = other_runs(runs.take(i + 1), current);
    let tail = other_runs(runs.skip(i + 1), current);
    assert(runs.take(i + 1).drop_last() =~= runs.take(i));
    let from = if all.len() > window {
        all.len() - window
    } else {
        0
    };
    assert(recent =~= all.skip(from));
    others_are_among(runs, current);
    if runs[i].run.id@ != current {
        assert(head.last() == runs[i]);
        let p = head.len() - 1;
        assert(all[p] == runs[i]);
        if tail.len() < window {
            assert(recent[p - from] == runs[i]);
        } else if recent.contains(runs[i]) {
            let k = choose|k: int| 0 <= k < recent.len() && recent[k] == runs[i];
            assert(all[k + from] == runs[i]);
            assert(tail[k + from - head.len()] == runs[i]);
            others_are_among(runs.skip(i + 1), current);
            assert(tail.contains(runs[i]));
            let later = runs.skip(i + 1);
            let q = choose|q: int| 0 <= q < later.len() && later[q] == runs[i];
            assert(runs[q + i + 1].run.id@ == runs[i].run.id@);
        }
    }
    assert forall|x: StoredRun| #[trigger] recent.contains(x) implies runs.contains(x) && x.run.id@
        != current by {
        let k = choose|k: int| 0 <= k < recent.len() && recent[k] == x;
        assert(all[k + from] == x);
        assert(all.contains(x));
    }
}

proof fn others_split(a: Seq<StoredRun>, b: Seq<StoredRun>, current: Seq<char>)
    ensures
        other_runs(a + b, current) == other_runs(a, current) + other_runs(b, current),
    decreases b.len(),
{
    if b.len() == 0 {
        assert(a + b =~= a);
        assert(other_runs(a, current) + other_runs(b, current) =~= other_runs(a, current));
    } else {
        others_split(a, b.drop_last(), current);
        assert((a + b).drop_last() =~= a + b.drop_last());
        assert(other_runs(a + b, current) =~= other_runs(a, current) + other_runs(b, current));
    }
}

proof fn others_are_among(runs: Seq<StoredRun>, current: Seq<char>)
    ensures
        forall|x: StoredRun| #[trigger]
            other_runs(runs, current).contains(x) ==> runs.contains(x) && x.run.id@ != current,
    decreases runs.len(),
{
    let all = other_runs(runs, current);
    if runs.len() > 0 {
        let init = runs.drop_last();
        others_are_among(init, current);
        assert forall|x: StoredRun| #[trigger] all.contains(x) implies runs.contains(x) && x.run.id@
            != current by {
            let before = other_runs(init, current);
            let k = choose|k: int| 0 <= k < all.len() && all[k] == x;
            if k < before.len() {
                assert(before[k] == x);
                assert(before.contains(x));
                let q = choose|q: int| 0 <= q < init.len() && init[q] == x;
                assert(runs[q] == x);
            } else {
                assert(runs[runs.len() - 1] == x);
            }
        }
    }
}

/// Of tests that fail or that the command knows, those are run that match one of the patterns; all
/// of them are where there are no patterns. Starts of names only narrow that further.
pub proof fn selected_tests_meet_the_patterns(
    c: CiCommand,
    state: CiState,
    v: Vec<TestId>,
    name: Seq<char>,
)
    requires
        state.phase == CiPhase::ReadingFailing || state.phase == CiPhase::ListingForFilter,
        ci_step(c, state, CiEvent::Tests(v)).task matches Ok(task) && !(task is EarlyExit),
    ensures
        ({
            let step = ci_step(c, state, CiEvent::Tests(v));
            let kept = test_names(v@).contains(name) && (c.test_filters@.len() > 0 ==> exists|k: int|
                0 <= k < c.test_filters@.len() && regex_matches(
                    (#[trigger] c.test_filters@[k])@,
                    name,
                ));
            &&& step.state.tests is Some
            &&& step.state.tests->0.contains(name) ==> kept
            &&& c.starting_with@.len() == 0 ==> step.state.tests->0.contains(name) == kept
        }),
{
    let t = test_names(v@);
    let list = texts(c.test_filters@);
    let w = if list.len() == 0 {
        t
    } else {
        filtered(list, t)
    };
    filtering_keeps_matches(list, t, name);
    if matches_any(list, name) {
        let k = choose|k: int| 0 <= k < list.len() && regex_matches(#[trigger] list[k], name);
        assert(regex_matches(c.test_filters@[k]@, name));
    }
    if exists|k: int|
        0 <= k < c.test_filters@.len() && regex_matches((#[trigger] c.test_filters@[k])@, name) {
        let k = choose|k: int|
            0 <= k < c.test_filters@.len() && regex_matches(
                (#[trigger] c.test_filters@[k])@,
                name,
            );
        assert(regex_matches(list[k], name));
    }
    let s = CiState { tests: Some(w), ..state };
    let first = texts(c.starting_with@);
    if first.len() > 0 {
        if let Ok(found) = starts(first, first.len(), w).1 {
            starts_keep_matches(found, w, name);
        }
    }
}

/// Tests are run by so many workers as are asked for, by one where no number is given, and what is
/// run is what was selected. The run that was recorded is what is told in the end.
pub proof fn selected_tests_are_run(c: CiCommand, state: CiState, n: Option<usize>, id: RunId)
    ensures
        state.phase == CiPhase::AskingConcurrency ==> {
            let step = ci_step(c, state, CiEvent::Concurrency(n));
            &&& step.task matches Ok(CiTask::Execute(mode, tests, partial))
            &&& tests == state.tests
            &&& partial == state.failing_only
            &&& match n {
                Some(k) => if k > 1 {
                    mode == ExecutionMode::Parallel(k)
                } else {
                    mode == ExecutionMode::Serial
                },
                None => mode == ExecutionMode::Serial,
            }
        },
        state.phase == CiPhase::Executing ==> ci_step(c, state, CiEvent::Executed(id)).task == Ok::<
            CiTask,
            Failure,
        >(CiTask::Ran(id@)),
        state.phase == CiPhase::Opening && state.failing_only ==> ci_step(
            c,
            state,
            CiEvent::Opened(None),
        ).task == Ok::<CiTask, Failure>(CiTask::ReadFailing),
{
}

impl Command for CiCommand {
    fn name(&self) -> (r: &str)
        ensures
            r@ == "ci"@,
    {
        "ci"
    }

    fn help(&self) -> (r: &str)
        ensures
            r@ == "Run tests with output formatted for a CI provider (GitHub Actions, GitLab CI)"@,
    {
        "Run tests with output formatted for a CI provider (GitHub Actions, GitLab CI)"
    }
}

} // verus!
