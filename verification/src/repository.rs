//! Tests, runs and their results.

use vstd::prelude::*;
use vstd::string::*;

use crate::collection::{with_entry, Keyed, KeyedList};
use crate::error::{Error, Failure, Result};
use crate::text::compose::{cat3, clone_texts, texts};
use crate::text::order::text_eq;
use crate::time::{Duration, Timestamp, MAX_NANOS};

verus! {

/// The name of a test.
#[derive(Debug)]
pub struct TestId {
    id: String,
}

impl View for TestId {
    type V = Seq<char>;

    closed spec fn view(&self) -> Seq<char> {
        self.id@
    }
}

impl TestId {
    /// The test of that name.
    pub fn new(id: &str) -> (r: TestId)
        ensures
            r@ == id@,
    {
        TestId { id: id.to_owned() }
    }

    /// The name of the test.
    pub fn as_str(&self) -> (r: &str)
        ensures
            r@ == self@,
    {
        self.id.as_str()
    }

    /// The same name once more.
    pub fn copy(&self) -> (r: TestId)
        ensures
            r == *self,
    {
        TestId { id: self.id.clone() }
    }
}

/// The name of a run.
#[derive(Debug)]
pub struct RunId {
    id: String,
}

impl View for RunId {
    type V = Seq<char>;

    closed spec fn view(&self) -> Seq<char> {
        self.id@
    }
}

impl RunId {
    /// The run of that name.
    pub fn new(id: &str) -> (r: RunId)
        ensures
            r@ == id@,
    {
        RunId { id: id.to_owned() }
    }

    /// The name of the run.
    pub fn as_str(&self) -> (r: &str)
        ensures
            r@ == self@,
    {
        self.id.as_str()
    }

    /// The same name once more.
    pub fn copy(&self) -> (r: RunId)
        ensures
            r == *self,
    {
        RunId { id: self.id.clone() }
    }
}

/// The names of a list of tests.
pub open spec fn test_names(v: Seq<TestId>) -> Seq<Seq<char>> {
    Seq::new(v.len(), |i: int| v[i]@)
}

/// The names of a list of runs.
pub open spec fn run_names(v: Seq<RunId>) -> Seq<Seq<char>> {
    Seq::new(v.len(), |i: int| v[i]@)
}

/// Appending a test appends its name.
pub broadcast proof fn test_names_push(v: Seq<TestId>, t: TestId)
    ensures
        #[trigger] test_names(v.push(t)) == test_names(v).push(t@),
{
    assert(test_names(v.push(t)) =~= test_names(v).push(t@));
}

/// Appending a run appends its name.
pub broadcast proof fn run_names_push(v: Seq<RunId>, t: RunId)
    ensures
        #[trigger] run_names(v.push(t)) == run_names(v).push(t@),
{
    assert(run_names(v.push(t)) =~= run_names(v).push(t@));
}

/// How a test ended.
#[derive(Clone, Copy, Debug, PartialEq, Eq, Structural)]
pub enum TestStatus {
    /// The test passed.
    Success,
    /// The test failed.
    Failure,
    /// The test broke.
    Error,
    /// The test was not run.
    Skip,
    /// The test failed as it was expected to.
    ExpectedFailure,
    /// The test passed though it was expected to fail.
    UnexpectedSuccess,
}

/// Whether a status counts as a failure.
pub open spec fn is_failure(s: TestStatus) -> bool {
    s == TestStatus::Failure || s == TestStatus::Error || s == TestStatus::UnexpectedSuccess
}

/// The name of a status.
pub open spec fn status_text(s: TestStatus) -> Seq<char> {
    match s {
        TestStatus::Success => "success"@,
        TestStatus::Failure => "failure"@,
        TestStatus::Error => "error"@,
        TestStatus::Skip => "skip"@,
        TestStatus::ExpectedFailure => "xfail"@,
        TestStatus::UnexpectedSuccess => "uxsuccess"@,
    }
}

/// The statuses that a filter selects.
pub open spec fn filter_statuses(filter: Seq<char>) -> Option<Seq<TestStatus>> {
    if filter == "failing"@ {
        Some(seq![TestStatus::Failure, TestStatus::Error, TestStatus::UnexpectedSuccess])
    } else if filter == "passing"@ {
        Some(seq![TestStatus::Success, TestStatus::Skip, TestStatus::ExpectedFailure])
    } else if filter == "success"@ {
        Some(seq![TestStatus::Success])
    } else if filter == "failure"@ {
        Some(seq![TestStatus::Failure])
    } else if filter == "error"@ {
        Some(seq![TestStatus::Error])
    } else if filter == "skip"@ {
        Some(seq![TestStatus::Skip])
    } else if filter == "xfail"@ {
        Some(seq![TestStatus::ExpectedFailure])
    } else if filter == "uxsuccess"@ {
        Some(seq![TestStatus::UnexpectedSuccess])
    } else {
        None
    }
}

/// The statuses that a list of filters selects, or the first filter that is unknown.
pub open spec fn filters_statuses(filters: Seq<Seq<char>>) -> core::result::Result<
    Seq<TestStatus>,
    Seq<char>,
>
    decreases filters.len(),
{
    if filters.len() == 0 {
        Ok(Seq::empty())
    } else {
        match filters_statuses(filters.drop_last()) {
            Err(f) => Err(f),
            Ok(s) => match filter_statuses(filters.last()) {
                Some(t) => Ok(s + t),
                None => Err(filters.last()),
            },
        }
    }
}

impl TestStatus {
    /// Whether the status counts as a failure.
    pub fn is_failure(&self) -> (r: bool)
        ensures
            r == is_failure(*self),
    {
        matches!(self, TestStatus::Failure | TestStatus::Error | TestStatus::UnexpectedSuccess)
    }

    /// Whether the status counts as a success: every status that is not a failure does.
    pub fn is_success(&self) -> (r: bool)
        ensures
            r == !is_failure(*self),
    {
        !self.is_failure()
    }

    /// The name of the status.
    pub fn text(&self) -> (r: &'static str)
        ensures
            r@ == status_text(*self),
    {
        match self {
            TestStatus::Success => "success",
            TestStatus::Failure => "failure",
            TestStatus::Error => "error",
            TestStatus::Skip => "skip",
            TestStatus::ExpectedFailure => "xfail",
            TestStatus::UnexpectedSuccess => "uxsuccess",
        }
    }

    /// The statuses that one filter selects.
    fn parse_filter(filter: &str) -> (r: Option<Vec<TestStatus>>)
        ensures
            match filter_statuses(filter@) {
                Some(s) => r matches Some(v) && v@ == s,
                None => r is None,
            },
    {
        let v: Vec<TestStatus> = if text_eq(filter, "failing") {
            vec![TestStatus::Failure, TestStatus::Error, TestStatus::UnexpectedSuccess]
        } else if text_eq(filter, "passing") {
            vec![TestStatus::Success, TestStatus::Skip, TestStatus::ExpectedFailure]
        } else if text_eq(filter, "success") {
            vec![TestStatus::Success]
        } else if text_eq(filter, "failure") {
            vec![TestStatus::Failure]
        } else if text_eq(filter, "error") {
            vec![TestStatus::Error]
        } else if text_eq(filter, "skip") {
            vec![TestStatus::Skip]
        } else if text_eq(filter, "xfail") {
            vec![TestStatus::ExpectedFailure]
        } else if text_eq(filter, "uxsuccess") {
            vec![TestStatus::UnexpectedSuccess]
        } else {
            return None;
        };
        assert(v@ =~= filter_statuses(filter@)->0);
        Some(v)
    }

    /// The statuses that a list of filters selects.
    pub fn parse_filters(filters: &Vec<String>) -> (r: Result<Vec<TestStatus>>)
        ensures
            match filters_statuses(texts(filters@)) {
                Ok(s) => r matches Ok(v) && v@ == s,
                Err(f) => r matches Err(e) && e@ == Failure::Config(
                    "Unknown status filter '"@ + f + "'"@,
                ),
            },
    {
        let mut v: Vec<TestStatus> = Vec::new();
        let ghost all = texts(filters@);
        for i in 0..filters.len()
            invariant
                all == texts(filters@),
                filters_statuses(all.take(i as int)) == Ok::<Seq<TestStatus>, Seq<char>>(v@),
        {
            let ghost now = all.take(i + 1);
            assert(now.drop_last() =~= all.take(i as int));
            match TestStatus::parse_filter(filters[i].as_str()) {
                Some(mut more) => {
                    v.append(&mut more);
                },
                None => {
                    proof {
                        filters_error_stays(all, i + 1);
                    }
                    return Err(
                        Error::Config(cat3("Unknown status filter '", filters[i].as_str(), "'")),
                    );
                },
            }
        }
        assert(all.take(filters@.len() as int) =~= all);
        Ok(v)
    }
}

/// An unknown filter among the first ones is the one reported.
proof fn filters_error_stays(filters: Seq<Seq<char>>, n: int)
    requires
        0 <= n <= filters.len(),
        filters_statuses(filters.take(n)) is Err,
    ensures
        filters_statuses(filters) == filters_statuses(filters.take(n)),
    decreases filters.len() - n,
{
    if n < filters.len() {
        assert(filters.take(n + 1).drop_last() =~= filters.take(n));
        filters_error_stays(filters, n + 1);
    } else {
        assert(filters.take(n) =~= filters);
    }
}

/// How one test fared in one run.
#[derive(Debug)]
pub struct TestResult {
    /// The test.
    pub test_id: TestId,
    /// How it ended.
    pub status: TestStatus,
    /// How long it took, where that is known.
    pub duration: Option<Duration>,
    /// A short message.
    pub message: Option<String>,
    /// A traceback or captured output.
    pub details: Option<String>,
    /// Labels of the result.
    pub tags: Vec<String>,
}

impl Keyed for TestResult {
    open spec fn key_text(&self) -> Seq<char> {
        self.test_id@
    }

    fn key(&self) -> (r: &str) {
        self.test_id.as_str()
    }
}

/// A copy of an optional string.
pub fn copy_text(s: &Option<String>) -> (r: Option<String>)
    ensures
        r == *s,
{
    match s {
        Some(t) => Some(t.clone()),
        None => None,
    }
}

impl TestResult {
    /// A result that says nothing but the status.
    fn bare(test_id: &str, status: TestStatus) -> (r: TestResult)
        ensures
            r.test_id@ == test_id@,
            r.status == status,
            r.duration is None,
            r.message is None,
            r.details is None,
            r.tags@.len() == 0,
    {
        TestResult {
            test_id: TestId::new(test_id),
            status,
            duration: None,
            message: None,
            details: None,
            tags: Vec::new(),
        }
    }

    /// A test that passed.
    pub fn success(test_id: &str) -> (r: TestResult)
        ensures
            r.test_id@ == test_id@,
            r.status == TestStatus::Success,
            r.duration is None && r.message is None && r.details is None,
            r.tags@.len() == 0,
    {
        TestResult::bare(test_id, TestStatus::Success)
    }

    /// A test that failed.
    pub fn failure(test_id: &str, message: &str) -> (r: TestResult)
        ensures
            r.test_id@ == test_id@,
            r.status == TestStatus::Failure,
            r.message matches Some(m) && m@ == message@,
            r.duration is None && r.details is None,
            r.tags@.len() == 0,
    {
        let mut r: TestResult = TestResult::bare(test_id, TestStatus::Failure);
        r.message = Some(message.to_owned());
        r
    }

    /// A test that broke.
    pub fn error(test_id: &str, message: &str) -> (r: TestResult)
        ensures
            r.test_id@ == test_id@,
            r.status == TestStatus::Error,
            r.message matches Some(m) && m@ == message@,
            r.duration is None && r.details is None,
            r.tags@.len() == 0,
    {
        let mut r: TestResult = TestResult::bare(test_id, TestStatus::Error);
        r.message = Some(message.to_owned());
        r
    }

    /// A test that was not run.
    pub fn skip(test_id: &str) -> (r: TestResult)
        ensures
            r.test_id@ == test_id@,
            r.status == TestStatus::Skip,
            r.duration is None && r.message is None && r.details is None,
            r.tags@.len() == 0,
    {
        TestResult::bare(test_id, TestStatus::Skip)
    }

    /// The result with a duration.
    pub fn with_duration(self, duration: Duration) -> (r: TestResult)
        ensures
            r == (TestResult { duration: Some(duration), ..self }),
    {
        TestResult { duration: Some(duration), ..self }
    }

    /// The result with details.
    pub fn with_details(self, details: &str) -> (r: TestResult)
        ensures
            r.details matches Some(d) && d@ == details@,
            r == (TestResult { details: r.details, ..self }),
    {
        TestResult { details: Some(details.to_owned()), ..self }
    }

    /// The result with one more label.
    pub fn with_tag(self, tag: &str) -> (r: TestResult)
        ensures
            texts(r.tags@) == texts(self.tags@).push(tag@),
            r == (TestResult { tags: r.tags, ..self }),
    {
        let mut tags: Vec<String> = self.tags;
        tags.push(tag.to_owned());
        assert(texts(tags@) =~= texts(self.tags@).push(tag@));
        TestResult {
            test_id: self.test_id,
            status: self.status,
            duration: self.duration,
            message: self.message,
            details: self.details,
            tags,
        }
    }

    /// The same result once more.
    pub fn copy(&self) -> (r: TestResult)
        ensures
            r.test_id == self.test_id,
            r.status == self.status,
            r.duration == self.duration,
            r.message == self.message,
            r.details == self.details,
            r.tags@ == self.tags@,
    {
        TestResult {
            test_id: self.test_id.copy(),
            status: self.status,
            duration: self.duration,
            message: copy_text(&self.message),
            details: copy_text(&self.details),
            tags: clone_texts(&self.tags),
        }
    }
}

/// The results of a run, at most one for each test, in the order of the tests' names.
pub type ResultMap = KeyedList<TestResult>;

/// The results that are failures, in order.
pub open spec fn failing_results(s: Seq<TestResult>) -> Seq<TestResult>
    decreases s.len(),
{
    if s.len() == 0 {
        Seq::empty()
    } else {
        let before = failing_results(s.drop_last());
        if is_failure(s.last().status) {
            before.push(s.last())
        } else {
            before
        }
    }
}

/// How many results are failures.
pub open spec fn failure_count(s: Seq<TestResult>) -> nat
    decreases s.len(),
{
    if s.len() == 0 {
        0
    } else {
        failure_count(s.drop_last()) + if is_failure(s.last().status) {
            1nat
        } else {
            0nat
        }
    }
}

/// Failures are counted one by one: results that follow each other have the failures of both, and
/// there are none exactly where no result is a failure.
pub proof fn failures_are_counted(a: Seq<TestResult>, b: Seq<TestResult>)
    ensures
        failure_count(a + b) == failure_count(a) + failure_count(b),
        b.len() == 1 ==> failure_count(b) == (if is_failure(b[0].status) {
            1nat
        } else {
            0
        }),
        failure_count(b) == 0 <==> forall|i: int|
            0 <= i < b.len() ==> !is_failure((#[trigger] b[i]).status),
    decreases b.len(),
{
    if b.len() == 0 {
        assert(a + b =~= a);
    } else {
        let init = b.drop_last();
        assert((a + b).drop_last() =~= a + init);
        failures_are_counted(a, init);
        if forall|i: int| 0 <= i < b.len() ==> !is_failure((#[trigger] b[i]).status) {
            assert forall|i: int| 0 <= i < init.len() implies !is_failure(
                (#[trigger] init[i]).status,
            ) by {
                assert(init[i] == b[i]);
            }
            assert(!is_failure(b[b.len() - 1].status));
        }
        if failure_count(b) == 0 {
            assert forall|i: int| 0 <= i < b.len() implies !is_failure((#[trigger] b[i]).status) by {
                if i < init.len() {
                    assert(init[i] == b[i]);
                }
            }
        }
    }
}

/// Failures are never more than there are results.
pub proof fn failure_count_bound(s: Seq<TestResult>)
    ensures
        failure_count(s) <= s.len(),
    decreases s.len(),
{
    if s.len() > 0 {
        failure_count_bound(s.drop_last());
    }
}

/// The nanoseconds that the results took in all.
pub open spec fn nanos_sum(s: Seq<TestResult>) -> nat
    decreases s.len(),
{
    if s.len() == 0 {
        0
    } else {
        nanos_sum(s.drop_last()) + match s.last().duration {
            Some(d) => d@,
            None => 0,
        }
    }
}

/// Whether any result has a duration.
pub open spec fn any_timed(s: Seq<TestResult>) -> bool {
    exists|i: int| 0 <= i < s.len() && (#[trigger] s[i]).duration is Some
}

/// The sum over the first results is no more than over all.
pub proof fn nanos_sum_monotonic(s: Seq<TestResult>, n: int)
    requires
        0 <= n <= s.len(),
    ensures
        nanos_sum(s.take(n)) <= nanos_sum(s),
    decreases s.len() - n,
{
    if n < s.len() {
        assert(s.take(n + 1).drop_last() =~= s.take(n));
        nanos_sum_monotonic(s, n + 1);
    } else {
        assert(s.take(n) =~= s);
    }
}

/// One run of tests.
#[derive(Debug)]
pub struct TestRun {
    /// The name of the run.
    pub id: RunId,
    /// When the run was made.
    pub timestamp: Timestamp,
    /// How the tests fared.
    pub results: ResultMap,
    /// Why the record of the run ends early, where it does.
    pub interruption: Option<String>,
    /// Labels of the run.
    pub tags: Vec<String>,
}

impl TestRun {
    /// A run without results.
    pub fn new(id: RunId) -> (r: TestRun)
        ensures
            r.id == id,
            r.results@ == Seq::<TestResult>::empty(),
            r.interruption is None,
            r.tags@ == Seq::<String>::empty(),
            r.timestamp == (Timestamp { seconds: 0, nanos: 0 }),
    {
        TestRun {
            id,
            timestamp: Timestamp { seconds: 0, nanos: 0 },
            results: KeyedList::new(),
            interruption: None,
            tags: Vec::new(),
        }
    }

    /// Records how a test fared, in place of what was recorded of it before.
    pub fn add_result(&mut self, result: TestResult)
        ensures
            final(self).results@ == with_entry(old(self).results@, result),
            final(self).id == old(self).id,
            final(self).timestamp == old(self).timestamp,
            final(self).interruption == old(self).interruption,
            final(self).tags == old(self).tags,
    {
        self.results.put(result);
    }

    /// How many tests there are results of.
    pub fn total_tests(&self) -> (n: usize)
        ensures
            n == self.results@.len(),
    {
        self.results.len()
    }

    /// How many results are failures.
    pub fn count_failures(&self) -> (n: usize)
        ensures
            n == failure_count(self.results@),
            n <= self.results@.len(),
    {
        let v: &Vec<TestResult> = self.results.entries();
        let mut n: usize = 0;
        for i in 0..v.len()
            invariant
                n == failure_count(v@.take(i as int)),
                n <= i,
        {
            assert(v@.take(i + 1).drop_last() =~= v@.take(i as int));
            if v[i].status.is_failure() {
                n += 1;
            }
        }
        assert(v@.take(v@.len() as int) =~= v@);
        n
    }

    /// How many results are successes.
    pub fn count_successes(&self) -> (n: usize)
        ensures
            n == self.results@.len() - failure_count(self.results@),
    {
        self.results.len() - self.count_failures()
    }

    /// How long the tests took in all, where any duration is known.
    pub fn total_duration(&self) -> (r: Option<Duration>)
        requires
            nanos_sum(self.results@) <= MAX_NANOS,
        ensures
            r is Some <==> any_timed(self.results@),
            r matches Some(d) ==> d@ == nanos_sum(self.results@),
    {
        let v: &Vec<TestResult> = self.results.entries();
        let mut sum: u128 = 0;
        let mut timed: bool = false;
        for i in 0..v.len()
            invariant
                v@ == self.results@,
                nanos_sum(v@) <= MAX_NANOS,
                sum == nanos_sum(v@.take(i as int)),
                timed <==> exists|k: int| 0 <= k < i && (#[trigger] v@[k]).duration is Some,
        {
            proof {
                assert(v@.take(i + 1).drop_last() =~= v@.take(i as int));
                nanos_sum_monotonic(v@, i + 1);
            }
            if let Some(d) = v[i].duration {
                assert(v@[i as int].duration is Some);
                sum = sum + d.as_nanos();
                timed = true;
            }
        }
        assert(v@.take(v@.len() as int) =~= v@);
        if timed {
            Some(Duration::from_nanos(sum))
        } else {
            None
        }
    }
}

/// What is known of a run besides its results.
#[derive(Debug)]
pub struct RunMetadata {
    /// The commit that was tested.
    pub git_commit: Option<String>,
    /// Whether the working tree differed from the commit.
    pub git_dirty: Option<bool>,
    /// The command that was run.
    pub command: Option<String>,
    /// How many workers ran the tests.
    pub concurrency: Option<u32>,
    /// How long the run took.
    pub duration: Option<Duration>,
    /// The exit code of the run.
    pub exit_code: Option<i32>,
    /// Extra arguments for the test command.
    pub test_args: Option<Vec<String>>,
    /// The profile that was active.
    pub profile: Option<String>,
    /// How long the run was expected to take.
    pub predicted_duration: Option<Duration>,
}

/// Nothing is known of a run besides its results.
pub open spec fn no_metadata() -> RunMetadata {
    RunMetadata {
        git_commit: None,
        git_dirty: None,
        command: None,
        concurrency: None,
        duration: None,
        exit_code: None,
        test_args: None,
        profile: None,
        predicted_duration: None,
    }
}

impl Default for RunMetadata {
    fn default() -> (r: RunMetadata)
        ensures
            r == no_metadata(),
    {
        RunMetadata {
            git_commit: None,
            git_dirty: None,
            command: None,
            concurrency: None,
            duration: None,
            exit_code: None,
            test_args: None,
            profile: None,
            predicted_duration: None,
        }
    }
}

} // verus!
