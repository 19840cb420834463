//! Running tests again and again to find those that do not always fare the same.

use vstd::prelude::*;
use vstd::string::*;

use crate::collection::{entry_of, has_key, keys_ascend, with_entry_laws, KeyedList, Named, TextMap};
use crate::commands::run::{plain_run, CliRunOutput, RunCommand};
use crate::commands::Command;
use crate::config::layer::optional_text;
use crate::config::timeout::TimeoutSetting;
use crate::error::{Error, Failure, Result};
use crate::flakiness::{change_limit, changes_are_limited, history_of, is_ranking, nothing_observed, observed, rank, ranked_tests, records, seen_in, verdict_text, ConcurrencyBreakdown, Record, TestFlakiness};
use crate::gather::{append_texts, gathered};
use crate::machine::cpu_count;
use crate::ordering::TestOrder;
use crate::repository::{copy_text, is_failure, run_names, RunId, TestResult};
use crate::sort::{is_order, positions, sorted_order, SortKey};
use crate::store::{has_run, run_of, Store, StoredRun};
use crate::text::compose::{cat2, cat3, cat4, cat5, cat7, chars, clone_texts, join, joined, slice, texts};
use crate::text::number::{count_text, decimal, decimal_text, parse_nat, parsed_nat};
use crate::text::order::{text_eq, text_less, text_lt, text_lt_irreflexive, text_lt_total, text_lt_transitive};
use crate::text::scan::{lines, lines_of, pieces, split, trim, trimmed};
use crate::time::{pad_left, pad_right, padded_left, padded_right, percent, percent_text, Duration};
use crate::ui::{outputs, Line, Transcript};

verus! {

broadcast use {crate::text::compose::texts_push, crate::repository::run_names_push};

/// How many different messages are shown of a test in the table.
pub const MAX_MESSAGES_PER_TEST: usize = 3;

/// How many characters of a message are shown.
pub const MAX_MESSAGE_LEN: usize = 200;

/// How many lines of details are shown.
pub const MAX_DETAILS_LINES: usize = 30;

/// How often tests are run where nothing else is asked for.
pub const DEFAULT_ITERATIONS: usize = 10;

/// One way in which a test fails.
#[derive(Debug)]
pub struct FailureMode {
    /// The message that the failures have in common.
    pub message: String,
    /// How many runs failed in this way.
    pub count: usize,
    /// The details of one of the failures, where any has details.
    pub details: Option<String>,
}

/// One way in which a test fails, as plain values.
pub struct Mode {
    /// See [`FailureMode::message`].
    pub message: Seq<char>,
    /// See [`FailureMode::count`].
    pub count: nat,
    /// See [`FailureMode::details`].
    pub details: Option<Seq<char>>,
}

impl View for FailureMode {
    type V = Mode;

    open spec fn view(&self) -> Mode {
        Mode {
            message: self.message@,
            count: self.count as nat,
            details: optional_text(self.details),
        }
    }
}

/// What is known of the failures of a test.
#[derive(Debug)]
pub struct FailureAnalysis {
    /// The runs in which it failed, counted from one.
    pub failing_iterations: Vec<usize>,
    /// The names of these runs.
    pub failing_run_ids: Vec<RunId>,
    /// The ways in which it failed, the most frequent first.
    pub modes: Vec<FailureMode>,
    /// How it fared with one worker and with several.
    pub concurrency: ConcurrencyBreakdown,
}

/// What is known of the failures of a test, as plain values.
pub struct Analysis {
    /// See [`FailureAnalysis::failing_iterations`].
    pub iterations: Seq<int>,
    /// See [`FailureAnalysis::failing_run_ids`].
    pub run_ids: Seq<Seq<char>>,
    /// See [`FailureAnalysis::modes`].
    pub modes: Seq<Mode>,
    /// See [`FailureAnalysis::concurrency`].
    pub concurrency: ConcurrencyBreakdown,
}

/// Modes as plain values.
pub open spec fn mode_views(v: Seq<FailureMode>) -> Seq<Mode> {
    Seq::new(v.len(), |i: int| v[i]@)
}

impl View for FailureAnalysis {
    type V = Analysis;

    open spec fn view(&self) -> Analysis {
        Analysis {
            iterations: positions(self.failing_iterations@),
            run_ids: run_names(self.failing_run_ids@),
            modes: mode_views(self.modes@),
            concurrency: self.concurrency,
        }
    }
}

/// What is known of the failures of each test.
pub type FailureAnalyses = TextMap<FailureAnalysis>;

/// Command that runs tests again and again.
#[derive(Debug)]
pub struct StressCommand {
    /// Where the project is.
    pub base_path: Option<String>,
    /// How often the tests are run.
    pub iterations: usize,
    /// Whether to stop as soon as a test does not always fare the same.
    pub stop_on_flaky: bool,
    /// A file with the tests to run.
    pub load_list: Option<String>,
    /// How many workers to use.
    pub concurrency: Option<usize>,
    /// Whether each test gets a process of its own.
    pub isolated: bool,
    /// Patterns of which a test must match one.
    pub test_filters: Option<Vec<String>>,
    /// Starts of names of which a test must have one.
    pub starting_with: Option<Vec<String>>,
    /// Further arguments for the test command.
    pub test_args: Option<Vec<String>>,
    /// The timeout of each test.
    pub test_timeout: TimeoutSetting,
    /// The timeout of each run.
    pub max_duration: TimeoutSetting,
    /// How long a test may stay silent.
    pub no_output_timeout: Option<Duration>,
    /// How often the tests may be started again.
    pub max_restarts: Option<usize>,
    /// The order of the tests.
    pub test_order: Option<TestOrder>,
    /// By how much to lower the priority of the tests.
    pub nice: Option<i32>,
}

/// The last line that is not blank, without blanks around it.
pub open spec fn last_line(list: Seq<Seq<char>>) -> Option<Seq<char>>
    decreases list.len(),
{
    if list.len() == 0 {
        None
    } else if trimmed(list.last()).len() > 0 {
        Some(trimmed(list.last()))
    } else {
        last_line(list.drop_last())
    }
}

/// What a failure is told by: its message, else the last line of its details that is not blank,
/// else a placeholder.
pub open spec fn summary_of(message: Option<Seq<char>>, details: Option<Seq<char>>) -> Seq<char> {
    if message is Some && trimmed(message->0).len() > 0 {
        trimmed(message->0)
    } else if details is Some && last_line(lines_of(details->0)) is Some {
        last_line(lines_of(details->0))->0
    } else {
        "(no message)"@
    }
}

/// A text without blanks around it, where anything is left.
pub open spec fn nonblank(s: Option<Seq<char>>) -> Option<Seq<char>> {
    match s {
        Some(t) => if trimmed(t).len() > 0 {
            Some(trimmed(t))
        } else {
            None
        },
        None => None,
    }
}

/// The modes with one more failure.
pub open spec fn with_failure(modes: Seq<Mode>, message: Seq<char>, details: Option<Seq<char>>) -> Seq<
    Mode,
>
    decreases modes.len(),
{
    if modes.len() == 0 {
        seq![Mode { message, count: 1, details }]
    } else if modes[0].message == message {
        modes.update(
            0,
            Mode {
                message,
                count: modes[0].count + 1,
                details: if modes[0].details is None {
                    details
                } else {
                    modes[0].details
                },
            },
        )
    } else {
        seq![modes[0]] + with_failure(modes.drop_first(), message, details)
    }
}

/// The result of a test in a run.
pub open spec fn result_in(window: Seq<&StoredRun>, i: int, t: Seq<char>) -> TestResult {
    entry_of(window[i].run.results@, t)
}

/// Whether a test failed in a run.
pub open spec fn failed_in(window: Seq<&StoredRun>, i: int, t: Seq<char>) -> bool {
    has_key(window[i].run.results@, t) && is_failure(result_in(window, i, t).status)
}

/// The ways in which a test failed in the first `n` runs, in the order in which they occurred.
pub open spec fn modes_after(window: Seq<&StoredRun>, t: Seq<char>, n: nat) -> Seq<Mode>
    decreases n,
{
    if n == 0 {
        Seq::empty()
    } else {
        let before = modes_after(window, t, (n - 1) as nat);
        let r = result_in(window, n - 1, t);
        if failed_in(window, n - 1, t) {
            with_failure(
                before,
                summary_of(optional_text(r.message), optional_text(r.details)),
                nonblank(optional_text(r.details)),
            )
        } else {
            before
        }
    }
}

/// How a test fared in the first `n` runs with one worker and with several.
pub open spec fn breakdown_after(window: Seq<&StoredRun>, t: Seq<char>, n: nat) -> ConcurrencyBreakdown
    decreases n,
{
    if n == 0 {
        nothing_observed()
    } else {
        let before = breakdown_after(window, t, (n - 1) as nat);
        if has_key(window[n - 1].run.results@, t) {
            observed(
                before,
                window[n - 1].metadata.concurrency,
                is_failure(result_in(window, n - 1, t).status),
            )
        } else {
            before
        }
    }
}

/// The number of a run in which a test failed.
pub open spec fn iteration_part(window: Seq<&StoredRun>, t: Seq<char>) -> spec_fn(int) -> Seq<int> {
    |i: int|
        if failed_in(window, i, t) {
            seq![i + 1]
        } else {
            Seq::empty()
        }
}

/// The name of a run in which a test failed.
pub open spec fn run_part(window: Seq<&StoredRun>, t: Seq<char>) -> spec_fn(int) -> Seq<Seq<char>> {
    |i: int|
        if failed_in(window, i, t) {
            seq![window[i].run.id@]
        } else {
            Seq::empty()
        }
}

impl SortKey for FailureMode {
    /// The most frequent first, then by message.
    open spec fn before(&self, other: &Self) -> bool {
        mode_before(self@, other@)
    }

    proof fn weak_order(a: &Self, b: &Self, c: &Self) {
        let (x, y, z) = (a.message@, b.message@, c.message@);
        text_lt_irreflexive(x);
        if text_lt(x, y) && text_lt(y, z) {
            text_lt_transitive(x, y, z);
        }
        text_lt_total(x, y);
        text_lt_total(y, z);
        if text_lt(y, x) && text_lt(z, y) {
            text_lt_transitive(z, y, x);
        }
        if text_lt(x, z) && text_lt(z, x) {
            text_lt_transitive(x, z, x);
        }
    }

    fn is_before(&self, other: &Self) -> (r: bool) {
        self.count > other.count || (self.count == other.count && text_less(
            self.message.as_str(),
            other.message.as_str(),
        ))
    }
}

/// Whether one way of failing is listed before another.
pub open spec fn mode_before(a: Mode, b: Mode) -> bool {
    a.count > b.count || (a.count == b.count && text_lt(a.message, b.message))
}

/// Whether `list` holds the same ways of failing as `modes`, the most frequent first.
pub open spec fn is_mode_ranking(list: Seq<Mode>, modes: Seq<Mode>) -> bool {
    &&& list.len() == modes.len()
    &&& forall|m: Mode| #[trigger] list.contains(m) <==> modes.contains(m)
    &&& forall|i: int, j: int|
        0 <= i < j < list.len() ==> !mode_before(#[trigger] list[j], #[trigger] list[i])
}

/// Whether `a` is what is known of the failures of a test over the runs.
pub open spec fn is_analysis(a: Analysis, window: Seq<&StoredRun>, t: Seq<char>) -> bool {
    &&& a.iterations == gathered(iteration_part(window, t), window.len())
    &&& a.run_ids == gathered(run_part(window, t), window.len())
    &&& is_mode_ranking(a.modes, modes_after(window, t, window.len()))
    &&& a.concurrency == breakdown_after(window, t, window.len())
}

/// What a failure is told by.
pub fn failure_summary(message: Option<&str>, details: Option<&str>) -> (r: String)
    ensures
        r@ == summary_of(
            match message {
                Some(m) => Some(m@),
                None => None,
            },
            match details {
                Some(d) => Some(d@),
                None => None,
            },
        ),
{
    if let Some(m) = message {
        let t: String = trim(m);
        if !t.as_str().is_empty() {
            return t;
        }
    }
    if let Some(d) = details {
        let list: Vec<String> = lines(d);
        let ghost all = texts(list@);
        let mut n: usize = list.len();
        assert(all.take(n as int) =~= all);
        while n > 0
            invariant
                n <= list@.len(),
                all == texts(list@),
                all == lines_of(d@),
                details == Some(d),
                message is Some ==> trimmed(message->0@).len() == 0,
                last_line(all) == last_line(all.take(n as int)),
            decreases n,
        {
            assert(all.take(n as int).last() == list@[n - 1]@);
            assert(all.take(n as int).drop_last() =~= all.take(n - 1));
            let t: String = trim(list[n - 1].as_str());
            if !t.as_str().is_empty() {
                return t;
            }
            n -= 1;
        }
    }
    "(no message)".to_owned()
}

/// The pieces that are not blank, without blanks around them.
pub open spec fn nonblank_pieces(list: Seq<Seq<char>>) -> Seq<Seq<char>>
    decreases list.len(),
{
    if list.len() == 0 {
        Seq::empty()
    } else {
        let before = nonblank_pieces(list.drop_last());
        if trimmed(list.last()).len() > 0 {
            before.push(trimmed(list.last()))
        } else {
            before
        }
    }
}

/// A message in one line of at most `max_len` characters.
pub open spec fn one_line(msg: Seq<char>, max_len: nat) -> Seq<char> {
    let whole = joined(nonblank_pieces(pieces(msg, '\n')), " / "@);
    if whole.len() <= max_len {
        whole
    } else {
        whole.take(max_len as int) + "..."@
    }
}

/// A message in one line of at most `max_len` characters.
pub fn truncate_message(msg: &str, max_len: usize) -> (r: String)
    ensures
        r@ == one_line(msg@, max_len as nat),
{
    let list: Vec<String> = split(msg, '\n');
    let ghost all = texts(list@);
    let mut kept: Vec<String> = Vec::new();
    assert(texts(kept@) =~= nonblank_pieces(all.take(0)));
    for i in 0..list.len()
        invariant
            all == texts(list@),
            texts(kept@) == nonblank_pieces(all.take(i as int)),
    {
        assert(all.take(i + 1).drop_last() =~= all.take(i as int));
        let t: String = trim(list[i].as_str());
        if !t.as_str().is_empty() {
            kept.push(t);
        }
    }
    assert(all.take(list@.len() as int) =~= all);
    let whole: String = join(&kept, " / ");
    let v: Vec<char> = chars(whole.as_str());
    if v.len() <= max_len {
        return whole;
    }
    let start: String = slice(&v, 0, max_len);
    assert(start@ =~= whole@.take(max_len as int));
    cat2(start.as_str(), "...")
}

/// A number, or a range of numbers.
pub open spec fn range_text(first: int, last: int) -> Seq<char> {
    if first == last {
        decimal(first as nat)
    } else {
        decimal(first as nat) + ".."@ + decimal(last as nat)
    }
}

/// Where the run of consecutive numbers that ends at position `n - 1` starts.
pub open spec fn run_start(s: Seq<int>, n: int) -> int
    decreases n,
{
    if n <= 1 {
        0
    } else if s[n - 1] == s[n - 2] + 1 {
        run_start(s, n - 1)
    } else {
        n - 1
    }
}

/// The ranges of consecutive numbers among the first `n`, without the last one.
pub open spec fn closed_ranges(s: Seq<int>, n: int) -> Seq<Seq<char>>
    decreases n,
{
    if n <= 1 {
        Seq::empty()
    } else if s[n - 1] == s[n - 2] + 1 {
        closed_ranges(s, n - 1)
    } else {
        closed_ranges(s, n - 1).push(range_text(s[run_start(s, n - 1)], s[n - 2]))
    }
}

/// The ranges of consecutive numbers.
pub open spec fn ranges(s: Seq<int>) -> Seq<Seq<char>> {
    if s.len() == 0 {
        Seq::empty()
    } else {
        closed_ranges(s, s.len() as int).push(
            range_text(s[run_start(s, s.len() as int)], s.last()),
        )
    }
}

/// A number, or a range of numbers.
fn range_of(first: usize, last: usize) -> (r: String)
    ensures
        r@ == range_text(first as int, last as int),
{
    if first == last {
        count_text(first)
    } else {
        cat3(count_text(first).as_str(), "..", count_text(last).as_str())
    }
}

/// Numbers separated by commas, consecutive ones as ranges.
pub fn format_iteration_list(iterations: &Vec<usize>) -> (r: String)
    ensures
        r@ == joined(ranges(positions(iterations@)), ","@),
{
    let ghost s = positions(iterations@);
    if iterations.len() == 0 {
        return String::new();
    }
    let mut parts: Vec<String> = Vec::new();
    let mut start: usize = iterations[0];
    let mut prev: usize = iterations[0];
    assert(texts(parts@) =~= closed_ranges(s, 1));
    for i in 1..iterations.len()
        invariant
            s == positions(iterations@),
            1 <= i <= iterations@.len(),
            prev == s[i - 1],
            start == s[run_start(s, i as int)],
            texts(parts@) == closed_ranges(s, i as int),
    {
        let n: usize = iterations[i];
        assert(s[i as int] == n);
        if prev < usize::MAX && n == prev + 1 {
            prev = n;
        } else {
            parts.push(range_of(start, prev));
            start = n;
            prev = n;
        }
    }
    parts.push(range_of(start, prev));
    join(&parts, ",")
}

/// Whether the names are consecutive numbers.
pub open spec fn are_consecutive(names: Seq<Seq<char>>) -> bool {
    &&& forall|i: int|
        0 <= i < names.len() ==> parsed_nat(#[trigger] names[i]) is Some && parsed_nat(names[i])->0
            <= u64::MAX
    &&& forall|i: int, j: int|
        0 <= i && j == i + 1 && j < names.len() ==> parsed_nat(#[trigger] names[j])->0
            == parsed_nat(#[trigger] names[i])->0 + 1
}

/// The names of runs separated by commas; consecutive numbers as a range.
pub open spec fn run_list_text(names: Seq<Seq<char>>) -> Seq<char> {
    if names.len() == 0 {
        Seq::empty()
    } else if names.len() == 1 {
        names[0]
    } else if are_consecutive(names) {
        decimal(parsed_nat(names[0])->0) + ".."@ + decimal(parsed_nat(names.last())->0)
    } else {
        joined(names, ","@)
    }
}

/// The first and the last of consecutive numbers.
fn consecutive_bounds(run_ids: &Vec<RunId>) -> (r: Option<(u64, u64)>)
    requires
        run_ids@.len() > 1,
    ensures
        r is Some <==> are_consecutive(run_names(run_ids@)),
        r matches Some((a, b)) ==> a == parsed_nat(run_names(run_ids@)[0])->0 && b == parsed_nat(
            run_names(run_ids@).last(),
        )->0,
{
    let ghost names = run_names(run_ids@);
    let mut nums: Vec<u64> = Vec::new();
    for i in 0..run_ids.len()
        invariant
            names == run_names(run_ids@),
            nums@.len() == i,
            forall|k: int|
                0 <= k < i ==> parsed_nat(#[trigger] names[k]) == Some(nums@[k] as nat),
    {
        match parse_nat(run_ids[i].as_str(), u64::MAX) {
            Some(n) => {
                assert(parsed_nat(names[i as int]) == Some(n as nat));
                nums.push(n);
            },
            None => {
                assert(!(parsed_nat(names[i as int]) is Some && parsed_nat(names[i as int])->0
                    <= u64::MAX));
                return None;
            },
        }
    }
    for i in 1..nums.len()
        invariant
            names == run_names(run_ids@),
            nums@.len() == names.len(),
            1 <= i <= nums@.len(),
            forall|k: int|
                0 <= k < names.len() ==> parsed_nat(#[trigger] names[k]) == Some(nums@[k] as nat),
            forall|a: int, b: int|
                0 <= a && b == a + 1 && b < i ==> parsed_nat(#[trigger] names[b])->0 == parsed_nat(
                    #[trigger] names[a],
                )->0 + 1,
    {
        assert(parsed_nat(names[i as int])->0 == nums@[i as int]);
        assert(parsed_nat(names[i - 1])->0 == nums@[i - 1]);
        if nums[i - 1] == u64::MAX || nums[i] != nums[i - 1] + 1 {
            return None;
        }
    }
    Some((nums[0], nums[nums.len() - 1]))
}

/// The names of runs separated by commas; consecutive numbers as a range.
pub fn format_run_id_list(run_ids: &Vec<RunId>) -> (r: String)
    ensures
        r@ == run_list_text(run_names(run_ids@)),
{
    let ghost names = run_names(run_ids@);
    if run_ids.len() == 0 {
        return String::new();
    }
    if run_ids.len() == 1 {
        return run_ids[0].as_str().to_owned();
    }
    if let Some((first, last)) = consecutive_bounds(run_ids) {
        return cat3(
            decimal_text(first as u128).as_str(),
            "..",
            decimal_text(last as u128).as_str(),
        );
    }
    let mut list: Vec<String> = Vec::new();
    for i in 0..run_ids.len()
        invariant
            names == run_names(run_ids@),
            texts(list@) =~= names.take(i as int),
    {
        list.push(run_ids[i].as_str().to_owned());
    }
    assert(texts(list@) =~= names);
    join(&list, ",")
}

/// Where the mode of a message stands.
proof fn with_failure_at(modes: Seq<Mode>, message: Seq<char>, details: Option<Seq<char>>, p: int)
    requires
        0 <= p <= modes.len(),
        p < modes.len() ==> modes[p].message == message,
        forall|i: int| 0 <= i < p ==> (#[trigger] modes[i]).message != message,
    ensures
        with_failure(modes, message, details) == (if p < modes.len() {
            modes.update(
                p,
                Mode {
                    message,
                    count: modes[p].count + 1,
                    details: if modes[p].details is None {
                        details
                    } else {
                        modes[p].details
                    },
                },
            )
        } else {
            modes.push(Mode { message, count: 1, details })
        }),
    decreases modes.len(),
{
    let w = with_failure(modes, message, details);
    if modes.len() == 0 {
        assert(w =~= modes.push(Mode { message, count: 1, details }));
    } else if p > 0 {
        let rest = modes.drop_first();
        assert(modes[0].message != message);
        assert forall|i: int| 0 <= i < p - 1 implies (#[trigger] rest[i]).message != message by {
            assert(rest[i] == modes[i + 1]);
        }
        with_failure_at(rest, message, details, p - 1);
        if p < modes.len() {
            assert(w =~= modes.update(
                p,
                Mode {
                    message,
                    count: modes[p].count + 1,
                    details: if modes[p].details is None {
                        details
                    } else {
                        modes[p].details
                    },
                },
            ));
        } else {
            assert(w =~= modes.push(Mode { message, count: 1, details }));
        }
    }
}

/// Counts one more failure.
fn add_failure(modes: &mut Vec<FailureMode>, message: String, details: Option<String>)
    requires
        forall|i: int| 0 <= i < old(modes)@.len() ==> (#[trigger] old(modes)@[i]).count < usize::MAX,
    ensures
        mode_views(final(modes)@) == with_failure(
            mode_views(old(modes)@),
            message@,
            optional_text(details),
        ),
        forall|i: int|
            0 <= i < final(modes)@.len() ==> (#[trigger] final(modes)@[i]).count <= 1 || exists|
                j: int,
            |
                0 <= j < old(modes)@.len() && final(modes)@[i].count <= (#[trigger] old(
                    modes,
                )@[j]).count + 1,
{
    let ghost before = modes@;
    let ghost views = mode_views(modes@);
    let mut p: usize = 0;
    while p < modes.len() && !text_eq(modes[p].message.as_str(), message.as_str())
        invariant
            p <= modes@.len(),
            views == mode_views(modes@),
            forall|i: int| 0 <= i < p ==> (#[trigger] views[i]).message != message@,
        decreases modes@.len() - p,
    {
        assert(views[p as int] == modes@[p as int]@);
        p += 1;
    }
    proof {
        if p < modes@.len() {
            assert(views[p as int] == modes@[p as int]@);
        }
        with_failure_at(views, message@, optional_text(details), p as int);
    }
    if p < modes.len() {
        let count: usize = modes[p].count + 1;
        modes[p].count = count;
        if modes[p].details.is_none() {
            modes[p].details = details;
        }
        proof {
            assert(mode_views(modes@) =~= with_failure(views, message@, optional_text(details)));
            assert forall|i: int| 0 <= i < modes@.len() implies (#[trigger] modes@[i]).count <= 1
                || exists|j: int|
                0 <= j < before.len() && modes@[i].count <= (#[trigger] before[j]).count + 1 by {
                assert(modes@[i].count <= before[i].count + 1);
            }
        }
    } else {
        modes.push(FailureMode { message, count: 1, details });
        proof {
            assert(mode_views(modes@) =~= with_failure(views, message@, optional_text(details)));
            assert forall|i: int| 0 <= i < modes@.len() implies (#[trigger] modes@[i]).count <= 1
                || exists|j: int|
                0 <= j < before.len() && modes@[i].count <= (#[trigger] before[j]).count + 1 by {
                if i < before.len() {
                    assert(modes@[i].count <= before[i].count + 1);
                }
            }
        }
    }
}

/// Puts the most frequent ways of failing first.
fn sort_modes(modes: &Vec<FailureMode>) -> (r: Vec<FailureMode>)
    ensures
        is_mode_ranking(mode_views(r@), mode_views(modes@)),
{
    let order: Vec<usize> = sorted_order(modes);
    let ghost o = positions(order@);
    let ghost all = mode_views(modes@);
    let mut r: Vec<FailureMode> = Vec::new();
    for i in 0..order.len()
        invariant
            o == positions(order@),
            is_order(modes@, o),
            r@.len() == i,
            forall|k: int| 0 <= k < i ==> (#[trigger] r@[k])@ == modes@[o[k]]@,
    {
        assert(0 <= o[i as int] < modes@.len());
        let m: &FailureMode = &modes[order[i]];
        r.push(
            FailureMode {
                message: m.message.clone(),
                count: m.count,
                details: copy_text(&m.details),
            },
        );
    }
    proof {
        let list = mode_views(r@);
        assert forall|i: int, j: int| 0 <= i < j < list.len() implies !mode_before(
            #[trigger] list[j],
            #[trigger] list[i],
        ) by {
            assert(crate::sort::ranks_before(modes@, o[i], o[j]));
            FailureMode::weak_order(&modes@[o[i]], &modes@[o[j]], &modes@[o[i]]);
            assert(r@[i]@ == modes@[o[i]]@ && r@[j]@ == modes@[o[j]]@);
        }
        assert forall|m: Mode| #[trigger] list.contains(m) <==> all.contains(m) by {
            if list.contains(m) {
                let k = choose|k: int| 0 <= k < list.len() && list[k] == m;
                assert(0 <= o[k] < modes@.len());
                assert(r@[k]@ == modes@[o[k]]@);
                assert(all[o[k]] == m);
            }
            if all.contains(m) {
                let k = choose|k: int| 0 <= k < all.len() && all[k] == m;
                crate::sort::order_is_complete(modes@, o, k);
                let p = choose|p: int| 0 <= p < o.len() && o[p] == k;
                assert(r@[p]@ == modes@[o[p]]@);
                assert(list[p] == m);
            }
        }
    }
    r
}

/// A breakdown of `n` runs counts no more than `n`.
spec fn counts_at_most(b: ConcurrencyBreakdown, n: int) -> bool {
    &&& b.serial_failures <= n
    &&& b.serial_runs <= n
    &&& b.parallel_failures <= n
    &&& b.parallel_runs <= n
    &&& b.unknown_failures <= n
    &&& b.unknown_runs <= n
}

/// What is known of the failures of a test over the runs.
pub fn analyse(window: &Vec<&StoredRun>, t: &str) -> (r: FailureAnalysis)
    ensures
        is_analysis(r@, window@, t@),
{
    let ghost w = window@;
    let ghost name = t@;
    let mut iterations: Vec<usize> = Vec::new();
    let mut run_ids: Vec<RunId> = Vec::new();
    let mut modes: Vec<FailureMode> = Vec::new();
    let mut concurrency: ConcurrencyBreakdown = ConcurrencyBreakdown::default();
    let total: usize = window.len();
    assert(mode_views(modes@) =~= modes_after(w, name, 0));
    for i in 0..total
        invariant
            w == window@,
            name == t@,
            total == window@.len(),
            positions(iterations@) =~= gathered(iteration_part(w, name), i as nat),
            run_names(run_ids@) =~= gathered(run_part(w, name), i as nat),
            mode_views(modes@) == modes_after(w, name, i as nat),
            concurrency == breakdown_after(w, name, i as nat),
            counts_at_most(concurrency, i as int),
            forall|k: int| 0 <= k < modes@.len() ==> (#[trigger] modes@[k]).count <= i,
    {
        if let Some(result) = window[i].run.results.find(t) {
            let failed: bool = result.status.is_failure();
            concurrency.record(window[i].metadata.concurrency, failed);
            if failed {
                let message: Option<&str> = match &result.message {
                    Some(m) => Some(m.as_str()),
                    None => None,
                };
                let details: Option<&str> = match &result.details {
                    Some(d) => Some(d.as_str()),
                    None => None,
                };
                let summary: String = failure_summary(message, details);
                let kept: Option<String> = match details {
                    Some(d) => {
                        let body: String = trim(d);
                        if body.as_str().is_empty() {
                            None
                        } else {
                            Some(body)
                        }
                    },
                    None => None,
                };
                iterations.push(i + 1);
                run_ids.push(window[i].run.id.copy());
                let ghost before = modes@;
                add_failure(&mut modes, summary, kept);
                proof {
                    assert forall|k: int| 0 <= k < modes@.len() implies (#[trigger] modes@[k]).count
                        <= i + 1 by {
                        if modes@[k].count > 1 {
                            let j = choose|j: int|
                                0 <= j < before.len() && modes@[k].count <= (
                                #[trigger] before[j]).count + 1;
                            assert(before[j].count <= i);
                        }
                    }
                }
            }
        }
    }
    let sorted: Vec<FailureMode> = sort_modes(&modes);
    FailureAnalysis {
        failing_iterations: iterations,
        failing_run_ids: run_ids,
        modes: sorted,
        concurrency,
    }
}

/// The first of the names that no run has.
pub open spec fn missing_run(runs: Seq<StoredRun>, names: Seq<Seq<char>>) -> Option<Seq<char>>
    decreases names.len(),
{
    if names.len() == 0 {
        None
    } else {
        match missing_run(runs, names.drop_last()) {
            Some(n) => Some(n),
            None => if has_run(runs, names.last()) {
                None
            } else {
                Some(names.last())
            },
        }
    }
}

/// The runs of the names.
pub open spec fn window_of(runs: Seq<StoredRun>, names: Seq<Seq<char>>) -> Seq<
    &'static StoredRun,
> {
    Seq::new(names.len(), |i: int| &run_of(runs, names[i]))
}

/// A name that no run has among the first ones is the one found.
proof fn missing_run_stays(runs: Seq<StoredRun>, names: Seq<Seq<char>>, n: int)
    requires
        0 <= n <= names.len(),
        missing_run(runs, names.take(n)) is Some,
    ensures
        missing_run(runs, names) == missing_run(runs, names.take(n)),
    decreases names.len() - n,
{
    if n < names.len() {
        assert(names.take(n + 1).drop_last() =~= names.take(n));
        missing_run_stays(runs, names, n + 1);
    } else {
        assert(names.take(n) =~= names);
    }
}

/// The runs of the names.
fn open_window<'a>(store: &'a Store, run_ids: &Vec<RunId>) -> (r: Result<Vec<&'a StoredRun>>)
    ensures
        match missing_run(store.runs@, run_names(run_ids@)) {
            Some(n) => r matches Err(e) && e@ == Failure::TestRunNotFound(n),
            None => r matches Ok(w) && w@ == window_of(store.runs@, run_names(run_ids@)),
        },
{
    let ghost names = run_names(run_ids@);
    let mut w: Vec<&'a StoredRun> = Vec::new();
    for i in 0..run_ids.len()
        invariant
            names == run_names(run_ids@),
            missing_run(store.runs@, names.take(i as int)) is None,
            w@ =~= window_of(store.runs@, names).take(i as int),
    {
        assert(names.take(i + 1).drop_last() =~= names.take(i as int));
        match store.find(run_ids[i].as_str()) {
            Some(run) => {
                w.push(run);
            },
            None => {
                proof {
                    missing_run_stays(store.runs@, names, i + 1);
                }
                return Err(Error::TestRunNotFound(run_ids[i].as_str().to_owned()));
            },
        }
    }
    assert(names.take(run_ids@.len() as int) =~= names);
    assert(w@ =~= window_of(store.runs@, names));
    Ok(w)
}

/// Whether a record of a test is in a list.
pub open spec fn has_record(list: Seq<Record>, t: Seq<char>) -> bool {
    exists|i: int| 0 <= i < list.len() && (#[trigger] list[i]).name == t
}

/// Whether `analyses` tells of exactly the tests of a list how they failed.
pub open spec fn are_analyses(
    analyses: Seq<Named<FailureAnalysis>>,
    list: Seq<Record>,
    window: Seq<&StoredRun>,
) -> bool {
    &&& keys_ascend(analyses)
    &&& forall|t: Seq<char>| #[trigger] has_key(analyses, t) <==> has_record(list, t)
    &&& forall|t: Seq<char>| #[trigger]
        has_key(analyses, t) ==> is_analysis(entry_of(analyses, t).value@, window, t)
}

/// Whether the tests and what is known of them are those of the runs that do not always fare the
/// same: tests that failed, but not in every one of the runs.
pub open spec fn is_stress_summary(
    list: Seq<Record>,
    analyses: Seq<Named<FailureAnalysis>>,
    window: Seq<&StoredRun>,
) -> bool {
    is_ranking(list, window, ranked_tests(window, 1, true)) && are_analyses(analyses, list, window)
}

/// The tests that do not always fare the same over the runs of the given names, and how they
/// failed. A test that failed in every run is broken and left out; one that failed whenever it
/// was run, but was missing from some run, is listed.
pub fn summarise_run_ids(store: &Store, run_ids: &Vec<RunId>) -> (r: Result<
    (Vec<TestFlakiness>, FailureAnalyses),
>)
    ensures
        match missing_run(store.runs@, run_names(run_ids@)) {
            Some(n) => r matches Err(e) && e@ == Failure::TestRunNotFound(n),
            None => r matches Ok((list, analyses)) && is_stress_summary(
                records(list@),
                analyses@,
                window_of(store.runs@, run_names(run_ids@)),
            ),
        },
{
    let window: Vec<&StoredRun> = match open_window(store, run_ids) {
        Ok(w) => w,
        Err(e) => {
            return Err(e);
        },
    };
    let list: Vec<TestFlakiness> = rank(&window, 1, true);
    let ghost w = window@;
    let mut analyses: FailureAnalyses = KeyedList::new();
    for i in 0..list.len()
        invariant
            w == window@,
            are_analyses(analyses@, records(list@).take(i as int), w),
    {
        let a: FailureAnalysis = analyse(&window, list[i].test_id.as_str());
        let e: Named<FailureAnalysis> = Named {
            name: list[i].test_id.as_str().to_owned(),
            value: a,
        };
        let ghost g = e;
        let ghost before = analyses@;
        analyses.put(e);
        proof {
            with_entry_laws(before, g);
            let then = records(list@).take(i as int);
            let now = records(list@).take(i + 1);
            assert forall|t: Seq<char>| #[trigger]
                has_key(analyses@, t) <==> has_record(now, t) by {
                assert(t != g.name@ ==> has_key(analyses@, t) == has_key(before, t));
                assert(has_key(before, t) <==> has_record(then, t));
                if has_record(then, t) {
                    let k = choose|k: int| 0 <= k < then.len() && (#[trigger] then[k]).name == t;
                    assert(now[k].name == t);
                }
                if has_record(now, t) {
                    let k = choose|k: int| 0 <= k < now.len() && (#[trigger] now[k]).name == t;
                    if k < i {
                        assert(then[k].name == t);
                    }
                }
                assert(now[i as int].name == g.name@);
            }
            assert forall|t: Seq<char>| #[trigger] has_key(analyses@, t) implies is_analysis(
                entry_of(analyses@, t).value@,
                w,
                t,
            ) by {
                if t != g.name@ {
                    assert(has_key(before, t));
                }
            }
        }
    }
    assert(records(list@).take(list@.len() as int) =~= records(list@));
    Ok((list, analyses))
}

/// A line of details, indented.
pub open spec fn detail_part(list: Seq<Seq<char>>) -> spec_fn(int) -> Seq<Seq<char>> {
    |i: int| seq!["        | "@ + list[i]]
}

/// At most `max` lines of details.
pub open spec fn detail_lines(details: Seq<char>, max: nat) -> Seq<Seq<char>> {
    let list = lines_of(details);
    let shown = if list.len() > max {
        max
    } else {
        list.len()
    };
    gathered(detail_part(list), shown) + (if list.len() > max {
        seq![
            "        | ... ("@ + decimal((list.len() - max) as nat)
                + " more line(s) truncated; see `inq log <run-id>` for the full output)"@,
        ]
    } else {
        Seq::empty()
    })
}

/// At most `max` lines of details.
pub fn render_details_block(details: &str, max_lines: usize) -> (r: Vec<String>)
    ensures
        texts(r@) == detail_lines(details@, max_lines as nat),
{
    let list: Vec<String> = lines(details);
    let shown: usize = if list.len() > max_lines {
        max_lines
    } else {
        list.len()
    };
    let ghost all = texts(list@);
    let mut r: Vec<String> = Vec::new();
    for i in 0..shown
        invariant
            all == texts(list@),
            shown <= list@.len(),
            texts(r@) =~= gathered(detail_part(all), i as nat),
    {
        r.push(cat2("        | ", list[i].as_str()));
    }
    if list.len() > max_lines {
        r.push(
            cat3(
                "        | ... (",
                count_text(list.len() - max_lines).as_str(),
                " more line(s) truncated; see `inq log <run-id>` for the full output)",
            ),
        );
    }
    assert(texts(r@) =~= detail_lines(details@, max_lines as nat));
    r
}

/// A way of failing in the table.
pub open spec fn table_mode_part(a: FailureAnalysis) -> spec_fn(int) -> Seq<Seq<char>> {
    |i: int|
        seq![
            "      ["@ + decimal(a.modes@[i].count as nat) + "x] "@ + one_line(
                a.modes@[i].message@,
                200,
            ),
        ]
}

/// The ways of failing in the table, at most three.
pub open spec fn table_modes(a: FailureAnalysis) -> Seq<Seq<char>> {
    let n = a.modes@.len();
    gathered(
        table_mode_part(a),
        if n > 3 {
            3
        } else {
            n
        },
    ) + (if n > 3 {
        seq!["      ... and "@ + decimal((n - 3) as nat) + " other distinct message(s)"@]
    } else {
        Seq::empty()
    })
}

/// A test in the table.
pub open spec fn table_lines(e: TestFlakiness, analyses: Seq<Named<FailureAnalysis>>) -> Seq<
    Seq<char>,
> {
    seq![
        "  "@ + padded_left(decimal(e.failures as nat), 4) + "/"@ + padded_right(
            decimal(e.runs as nat),
            4,
        ) + " "@ + padded_left(
            percent_text(e.transitions as nat, change_limit(e.runs as nat)),
            5,
        ) + "%  "@ + e.test_id@,
    ] + (if has_key(analyses, e.test_id@) {
        table_modes(entry_of(analyses, e.test_id@).value)
    } else {
        Seq::empty()
    })
}

/// The tests in the table.
pub open spec fn table_part(
    flaky: Seq<TestFlakiness>,
    analyses: Seq<Named<FailureAnalysis>>,
) -> spec_fn(int) -> Seq<Seq<char>> {
    |i: int| table_lines(flaky[i], analyses)
}

/// A way of failing with its details.
pub open spec fn mode_part(a: FailureAnalysis) -> spec_fn(int) -> Seq<Seq<char>> {
    |i: int|
        seq![
            "    failure mode "@ + decimal((i + 1) as nat) + " of "@ + decimal(a.modes@.len())
                + " ("@ + decimal(a.modes@[i].count as nat) + "x): "@ + one_line(
                a.modes@[i].message@,
                200,
            ),
        ] + (match a.modes@[i].details {
            Some(d) => detail_lines(d@, 30),
            None => Seq::empty(),
        })
}

/// What is said of a test in the analysis.
pub open spec fn analysis_lines(e: TestFlakiness, a: FailureAnalysis, total: nat) -> Seq<
    Seq<char>,
> {
    seq![
        "\n* "@ + e.test_id@,
        "    failure rate: "@ + decimal(e.failures as nat) + "/"@ + decimal(e.runs as nat)
            + " iteration(s) ("@ + percent_text(e.failures as nat, e.runs as nat) + "%)"@,
    ] + (if e.runs < total {
        seq![
            "    note: only appeared in "@ + decimal(e.runs as nat) + " of "@ + decimal(total)
                + " stress iteration(s) — missing iterations may indicate sharding, ordering, or a prior crash that prevented this test from running."@,
        ]
    } else {
        Seq::empty()
    }) + seq![
        "    failed in iteration(s): "@ + joined(ranges(positions(a.failing_iterations@)), ","@),
        "    failing run id(s): "@ + run_list_text(run_names(a.failing_run_ids@)),
    ] + (match verdict_text(a.concurrency) {
        Some(v) => seq!["    concurrency: "@ + v],
        None => Seq::empty(),
    }) + gathered(mode_part(a), a.modes@.len())
}

/// What is said of the tests in the analysis.
pub open spec fn analysis_part(
    flaky: Seq<TestFlakiness>,
    analyses: Seq<Named<FailureAnalysis>>,
    total: nat,
) -> spec_fn(int) -> Seq<Seq<char>> {
    |i: int|
        if has_key(analyses, flaky[i].test_id@) {
            analysis_lines(flaky[i], entry_of(analyses, flaky[i].test_id@).value, total)
        } else {
            Seq::empty()
        }
}

/// What is said in the end.
pub open spec fn stress_lines(
    run_ids: Seq<Seq<char>>,
    flaky: Seq<TestFlakiness>,
    analyses: Seq<Named<FailureAnalysis>>,
    any_failure: bool,
) -> Seq<Seq<char>> {
    let title = seq![
        "\nStress summary ("@ + decimal(run_ids.len()) + " iteration(s), runs "@ + run_list_text(
            run_ids,
        ) + "):"@,
    ];
    if flaky.len() == 0 {
        title + (if any_failure {
            seq![
                "  No flaky tests observed, but at least one iteration had failing tests (likely a consistently broken test rather than flakiness)."@,
            ]
        } else {
            seq!["  No flaky tests observed."@]
        })
    } else {
        title + seq![
            "  Flaky tests: "@ + decimal(flaky.len()),
            "  fail/runs  flake%  test"@,
        ] + gathered(table_part(flaky, analyses), flaky.len()) + seq!["\nFailure analysis:"@]
            + gathered(analysis_part(flaky, analyses, run_ids.len()), flaky.len())
    }
}

/// The most a test can change; at least one, to divide by.
fn limit_of(runs: usize) -> (r: u128)
    ensures
        r == change_limit(runs as nat),
        r > 0,
{
    if runs < 2 {
        1
    } else {
        (runs - 1) as u128
    }
}

/// A test in the table.
fn render_table_entry(e: &TestFlakiness, analyses: &FailureAnalyses) -> (r: Vec<String>)
    ensures
        texts(r@) == table_lines(*e, analyses@),
{
    let score: String = percent(e.transitions as u128, limit_of(e.runs));
    let mut line: String = cat4(
        "  ",
        pad_left(count_text(e.failures).as_str(), 4).as_str(),
        "/",
        pad_right(count_text(e.runs).as_str(), 4).as_str(),
    );
    line.append(" ");
    line.append(pad_left(score.as_str(), 5).as_str());
    line.append("%  ");
    line.append(e.test_id.as_str());
    let mut r: Vec<String> = Vec::new();
    r.push(line);
    let ghost head = texts(r@);
    if let Some(a) = analyses.get(e.test_id.as_str()) {
        let n: usize = a.modes.len();
        let shown: usize = if n > MAX_MESSAGES_PER_TEST {
            MAX_MESSAGES_PER_TEST
        } else {
            n
        };
        for i in 0..shown
            invariant
                n == a.modes@.len(),
                shown <= n,
                texts(r@) =~= head + gathered(table_mode_part(*a), i as nat),
        {
            let message: String = truncate_message(a.modes[i].message.as_str(), MAX_MESSAGE_LEN);
            r.push(
                cat4("      [", count_text(a.modes[i].count).as_str(), "x] ", message.as_str()),
            );
        }
        if n > MAX_MESSAGES_PER_TEST {
            r.push(
                cat3(
                    "      ... and ",
                    count_text(n - MAX_MESSAGES_PER_TEST).as_str(),
                    " other distinct message(s)",
                ),
            );
        }
    }
    assert(texts(r@) =~= table_lines(*e, analyses@));
    r
}

/// What is said of a test in the analysis.
fn render_analysis(e: &TestFlakiness, a: &FailureAnalysis, total: usize) -> (r: Vec<String>)
    requires
        e.runs > 0,
    ensures
        texts(r@) == analysis_lines(*e, *a, total as nat),
{
    let mut r: Vec<String> = Vec::new();
    r.push(cat2("\n* ", e.test_id.as_str()));
    let rate: String = percent(e.failures as u128, e.runs as u128);
    r.push(
        cat7(
            "    failure rate: ",
            count_text(e.failures).as_str(),
            "/",
            count_text(e.runs).as_str(),
            " iteration(s) (",
            rate.as_str(),
            "%)",
        ),
    );
    if e.runs < total {
        r.push(
            cat5(
                "    note: only appeared in ",
                count_text(e.runs).as_str(),
                " of ",
                count_text(total).as_str(),
                " stress iteration(s) — missing iterations may indicate sharding, ordering, or a prior crash that prevented this test from running.",
            ),
        );
    }
    r.push(
        cat2(
            "    failed in iteration(s): ",
            format_iteration_list(&a.failing_iterations).as_str(),
        ),
    );
    r.push(
        cat2("    failing run id(s): ", format_run_id_list(&a.failing_run_ids).as_str()),
    );
    if let Some(v) = a.concurrency.verdict() {
        r.push(cat2("    concurrency: ", v.as_str()));
    }
    let ghost head = texts(r@);
    let n: usize = a.modes.len();
    for i in 0..n
        invariant
            n == a.modes@.len(),
            texts(r@) =~= head + gathered(mode_part(*a), i as nat),
    {
        let m: &FailureMode = &a.modes[i];
        let message: String = truncate_message(m.message.as_str(), MAX_MESSAGE_LEN);
        let mut line: String = cat7(
            "    failure mode ",
            count_text(i + 1).as_str(),
            " of ",
            count_text(n).as_str(),
            " (",
            count_text(m.count).as_str(),
            "x): ",
        );
        line.append(message.as_str());
        r.push(line);
        if let Some(d) = &m.details {
            append_texts(&mut r, render_details_block(d.as_str(), MAX_DETAILS_LINES));
        }
    }
    assert(texts(r@) =~= analysis_lines(*e, *a, total as nat));
    r
}

/// How far a stress command has come.
#[derive(Debug)]
pub struct StressProgress {
    /// The runs so far.
    pub run_ids: Vec<RunId>,
    /// Whether any of them failed.
    pub any_failure: bool,
    /// The number of the next run, counting from one.
    pub iteration: usize,
    /// How many workers to use.
    pub concurrency: Option<usize>,
}

/// What is said of the number of processors.
pub open spec fn cpu_lines(cpus: nat) -> Seq<Seq<char>> {
    if cpus > 1 {
        seq![
            "Stress: running each iteration in parallel across "@ + decimal(cpus)
                + " CPUs (auto-detected). Pass `-j N` to set a specific worker count, or `-j 1` to run serially."@,
        ]
    } else {
        Seq::empty()
    }
}

/// Whether `c` runs the tests once for a stress command.
pub open spec fn is_iteration(s: StressCommand, workers: Option<usize>, c: RunCommand) -> bool {
    &&& c.base_path == s.base_path
    &&& c.load_list == s.load_list
    &&& c.concurrency == workers
    &&& c.isolated == s.isolated
    &&& optional_lists(c.test_filters) == optional_lists(s.test_filters)
    &&& optional_lists(c.starting_with) == optional_lists(s.starting_with)
    &&& optional_lists(c.test_args) == optional_lists(s.test_args)
    &&& c.test_timeout == s.test_timeout
    &&& c.max_duration == s.max_duration
    &&& c.no_output_timeout == s.no_output_timeout
    &&& c.max_restarts == s.max_restarts
    &&& c.test_order == s.test_order
    &&& c == (RunCommand {
        load_list: c.load_list,
        concurrency: c.concurrency,
        isolated: c.isolated,
        test_filters: c.test_filters,
        starting_with: c.starting_with,
        test_args: c.test_args,
        test_timeout: c.test_timeout,
        max_duration: c.max_duration,
        no_output_timeout: c.no_output_timeout,
        max_restarts: c.max_restarts,
        test_order: c.test_order,
        ..plain_run(c.base_path)
    })
}

/// The texts of an optional list.
pub open spec fn optional_lists(v: Option<Vec<String>>) -> Option<Seq<Seq<char>>> {
    match v {
        Some(l) => Some(texts(l@)),
        None => None,
    }
}

/// A copy of an optional list.
pub(crate) fn copy_list(v: &Option<Vec<String>>) -> (r: Option<Vec<String>>)
    ensures
        optional_lists(r) == optional_lists(*v),
{
    match v {
        Some(l) => Some(clone_texts(l)),
        None => None,
    }
}

/// Whether the end of a stress command is right: what was said and the exit code.
pub open spec fn is_stress_end(
    store: Store,
    run_ids: Seq<Seq<char>>,
    any_failure: bool,
    lead: Seq<Seq<char>>,
    code: i32,
    said: Seq<Line>,
) -> bool {
    exists|flaky: Seq<TestFlakiness>, analyses: Seq<Named<FailureAnalysis>>|
        #![trigger stress_lines(run_ids, flaky, analyses, any_failure)]
        is_stress_summary(records(flaky), analyses, window_of(store.runs@, run_ids)) && said
            == outputs(lead + stress_lines(run_ids, flaky, analyses, any_failure)) && code == (
        if flaky.len() == 0 {
            0i32
        } else {
            1i32
        })
}

impl StressCommand {
    /// A command that runs the tests ten times.
    pub fn new(base_path: Option<String>) -> (r: Self)
        ensures
            r == (StressCommand {
                base_path,
                iterations: DEFAULT_ITERATIONS,
                stop_on_flaky: false,
                load_list: None,
                concurrency: None,
                isolated: false,
                test_filters: None,
                starting_with: None,
                test_args: None,
                test_timeout: TimeoutSetting::Disabled,
                max_duration: TimeoutSetting::Disabled,
                no_output_timeout: None,
                max_restarts: None,
                test_order: None,
                nice: None,
            }),
    {
        StressCommand {
            base_path,
            iterations: DEFAULT_ITERATIONS,
            stop_on_flaky: false,
            load_list: None,
            concurrency: None,
            isolated: false,
            test_filters: None,
            starting_with: None,
            test_args: None,
            test_timeout: TimeoutSetting::Disabled,
            max_duration: TimeoutSetting::Disabled,
            no_output_timeout: None,
            max_restarts: None,
            test_order: None,
            nice: None,
        }
    }

    /// The command that runs the tests once. All tests are run, and the run is recorded as a
    /// full one.
    pub fn build_iteration(&self, concurrency: Option<usize>) -> (r: RunCommand)
        ensures
            is_iteration(*self, concurrency, r),
    {
        let mut c: RunCommand = RunCommand::new(copy_text(&self.base_path));
        c.load_list = copy_text(&self.load_list);
        c.concurrency = concurrency;
        c.isolated = self.isolated;
        c.test_filters = copy_list(&self.test_filters);
        c.starting_with = copy_list(&self.starting_with);
        c.test_args = copy_list(&self.test_args);
        c.test_timeout = self.test_timeout;
        c.max_duration = self.max_duration;
        c.no_output_timeout = self.no_output_timeout;
        c.max_restarts = self.max_restarts;
        c.test_order = self.test_order;
        c
    }

    /// How many workers to use on a machine with `cpus` processors: as many as are asked for, else
    /// as many as there are processors.
    pub fn iteration_concurrency(&self, cpus: usize, ui: &mut Transcript) -> (r: Option<usize>)
        ensures
            match self.concurrency {
                Some(c) => r == Some(c) && final(ui)@ == old(ui)@,
                None => r == Some(cpus) && final(ui)@ == old(ui)@ + outputs(cpu_lines(cpus as nat)),
            },
    {
        if let Some(c) = self.concurrency {
            return Some(c);
        }
        if cpus > 1 {
            ui.output(
                cat3(
                    "Stress: running each iteration in parallel across ",
                    count_text(cpus).as_str(),
                    " CPUs (auto-detected). Pass `-j N` to set a specific worker count, or `-j 1` to run serially.",
                ).as_str(),
            );
        }
        assert(ui@ =~= old(ui)@ + outputs(cpu_lines(cpus as nat)));
        Some(cpus)
    }

    /// How many workers to use.
    pub fn resolve_iteration_concurrency(&self, ui: &mut Transcript) -> (r: Result<Option<usize>>)
        ensures
            match self.concurrency {
                Some(c) => r == Ok::<Option<usize>, Error>(Some(c)) && final(ui)@ == old(ui)@,
                None => r matches Ok(Some(cpus)) && final(ui)@ == old(ui)@ + outputs(
                    cpu_lines(cpus as nat),
                ),
            },
    {
        let cpus: usize = cpu_count();
        Ok(self.iteration_concurrency(cpus, ui))
    }

    /// Starts on a machine with `cpus` processors.
    pub fn begin_on(&self, cpus: usize, ui: &mut Transcript) -> (r: Result<StressProgress>)
        ensures
            match r {
                Err(e) => self.iterations == 0 && e@ == Failure::Other(
                    "stress: --iterations must be at least 1"@,
                ) && final(ui)@ == old(ui)@,
                Ok(p) => self.iterations > 0 && p.run_ids@.len() == 0 && !p.any_failure
                    && p.iteration == 1 && match self.concurrency {
                    Some(c) => p.concurrency == Some(c) && final(ui)@ == old(ui)@,
                    None => p.concurrency == Some(cpus) && final(ui)@ == old(ui)@ + outputs(
                        cpu_lines(cpus as nat),
                    ),
                },
            },
    {
        if self.iterations == 0 {
            return Err(Error::Other("stress: --iterations must be at least 1".to_owned()));
        }
        let concurrency: Option<usize> = self.iteration_concurrency(cpus, ui);
        Ok(StressProgress { run_ids: Vec::new(), any_failure: false, iteration: 1, concurrency })
    }

    /// Starts.
    pub fn begin(&self, ui: &mut Transcript) -> (r: Result<StressProgress>)
        ensures
            match r {
                Err(e) => self.iterations == 0 && e@ == Failure::Other(
                    "stress: --iterations must be at least 1"@,
                ) && final(ui)@ == old(ui)@,
                Ok(p) => self.iterations > 0 && p.run_ids@.len() == 0 && !p.any_failure
                    && p.iteration == 1 && p.concurrency is Some && match self.concurrency {
                    Some(c) => p.concurrency == Some(c) && final(ui)@ == old(ui)@,
                    None => final(ui)@ == old(ui)@ + outputs(cpu_lines(p.concurrency->0 as nat)),
                },
            },
    {
        self.begin_on(cpu_count(), ui)
    }

    /// The command for the next run.
    pub fn next_run(&self, p: &StressProgress, ui: &mut Transcript) -> (r: RunCommand)
        ensures
            is_iteration(*self, p.concurrency, r),
            final(ui)@ == old(ui)@.push(
                Line::Output(
                    "\n=== Stress iteration "@ + decimal(p.iteration as nat) + "/"@ + decimal(
                        self.iterations as nat,
                    ) + " ==="@,
                ),
            ),
    {
        ui.output(
            cat5(
                "\n=== Stress iteration ",
                count_text(p.iteration).as_str(),
                "/",
                count_text(self.iterations).as_str(),
                " ===",
            ).as_str(),
        );
        self.build_iteration(p.concurrency)
    }

    /// What is said in the end, and the exit code: one where a test does not always fare the
    /// same, else zero.
    pub fn report(
        &self,
        run_ids: &Vec<RunId>,
        flaky: &Vec<TestFlakiness>,
        analyses: &FailureAnalyses,
        any_failure: bool,
        ui: &mut Transcript,
    ) -> (code: i32)
        requires
            forall|i: int| 0 <= i < flaky@.len() ==> (#[trigger] flaky@[i]).runs > 0,
        ensures
            final(ui)@ == old(ui)@ + outputs(
                stress_lines(run_names(run_ids@), flaky@, analyses@, any_failure),
            ),
            code == (if flaky@.len() == 0 {
                0i32
            } else {
                1i32
            }),
    {
        let ghost names = run_names(run_ids@);
        let mut out: Vec<String> = Vec::new();
        out.push(
            cat5(
                "\nStress summary (",
                count_text(run_ids.len()).as_str(),
                " iteration(s), runs ",
                format_run_id_list(run_ids).as_str(),
                "):",
            ),
        );
        if flaky.len() == 0 {
            if any_failure {
                out.push(
                    "  No flaky tests observed, but at least one iteration had failing tests (likely a consistently broken test rather than flakiness).".to_owned(),
                );
            } else {
                out.push("  No flaky tests observed.".to_owned());
            }
            assert(texts(out@) =~= stress_lines(names, flaky@, analyses@, any_failure));
            ui.output_all(&out);
            return 0;
        }
        out.push(cat2("  Flaky tests: ", count_text(flaky.len()).as_str()));
        out.push("  fail/runs  flake%  test".to_owned());
        let ghost head = texts(out@);
        for i in 0..flaky.len()
            invariant
                texts(out@) =~= head + gathered(table_part(flaky@, analyses@), i as nat),
        {
            append_texts(&mut out, render_table_entry(&flaky[i], analyses));
        }
        out.push("\nFailure analysis:".to_owned());
        let ghost table = texts(out@);
        let total: usize = run_ids.len();
        for i in 0..flaky.len()
            invariant
                forall|i: int| 0 <= i < flaky@.len() ==> (#[trigger] flaky@[i]).runs > 0,
                texts(out@) =~= table + gathered(
                    analysis_part(flaky@, analyses@, total as nat),
                    i as nat,
                ),
        {
            if let Some(a) = analyses.get(flaky[i].test_id.as_str()) {
                assert(flaky@[i as int].runs > 0);
                append_texts(&mut out, render_analysis(&flaky[i], a, total));
            }
        }
        assert(texts(out@) =~= stress_lines(names, flaky@, analyses@, any_failure));
        ui.output_all(&out);
        1
    }

    /// Takes what came of a run, with the store after it. Gives the exit code where the command
    /// has come to its end.
    pub fn record(
        &self,
        p: &mut StressProgress,
        output: CliRunOutput,
        store: &Store,
        ui: &mut Transcript,
    ) -> (r: Result<Option<i32>>)
        requires
            old(p).iteration <= self.iterations,
            old(p).iteration < usize::MAX,
        ensures
            match output.run_id {
                None => r == Ok::<Option<i32>, Error>(Some(output.exit_code)) && final(ui)@ == old(
                    ui,
                )@.push(
                    Line::Output(
                        "\nStress aborted: no test run was recorded for this iteration. Check that your filters match at least one test."@,
                    ),
                ) && *final(p) == *old(p),
                Some(id) => {
                    let names = run_names(old(p).run_ids@).push(id@);
                    let failed = old(p).any_failure || output.exit_code != 0;
                    let last = old(p).iteration == self.iterations;
                    let looks = self.stop_on_flaky && names.len() >= 2;
                    &&& run_names(final(p).run_ids@) == names
                    &&& final(p).any_failure == failed
                    &&& final(p).concurrency == old(p).concurrency
                    &&& final(p).iteration == old(p).iteration + 1
                    &&& !last && !looks ==> r == Ok::<Option<i32>, Error>(None) && final(ui)@
                        == old(ui)@
                    &&& (last || looks) && missing_run(store.runs@, names) is Some ==> (r matches Err(
                        e,
                    ) && e@ == Failure::TestRunNotFound(missing_run(store.runs@, names)->0)
                        && final(ui)@ == old(ui)@)
                    &&& (last || looks) && missing_run(store.runs@, names) is None ==> r is Ok && {
                        let said = said_since(old(ui)@, final(ui)@);
                        &&& final(ui)@ == old(ui)@ + said
                        &&& r->Ok_0 is None ==> !last && said.len() == 0 && no_flaky_tests(
                            window_of(store.runs@, names),
                        )
                        &&& r->Ok_0 is Some ==> is_stress_end(
                            *store,
                            names,
                            failed,
                            if looks && !no_flaky_tests(window_of(store.runs@, names)) {
                                seq![stop_text(store.runs@, names, old(p).iteration as nat)]
                            } else {
                                Seq::empty()
                            },
                            r->Ok_0->0,
                            said,
                        ) && (last || !no_flaky_tests(window_of(store.runs@, names)))
                    }
                },
            },
    {
        let id: RunId = match output.run_id {
            Some(id) => id,
            None => {
                ui.output(
                    "\nStress aborted: no test run was recorded for this iteration. Check that your filters match at least one test.",
                );
                return Ok(Some(output.exit_code));
            },
        };
        let iteration: usize = p.iteration;
        p.run_ids.push(id);
        p.iteration = iteration + 1;
        if output.exit_code != 0 {
            p.any_failure = true;
        }
        let last: bool = iteration == self.iterations;
        let looks: bool = self.stop_on_flaky && p.run_ids.len() >= 2;
        let ghost names = run_names(p.run_ids@);
        if !last && !looks {
            return Ok(None);
        }
        let (flaky, analyses) = match summarise_run_ids(store, &p.run_ids) {
            Ok(v) => v,
            Err(e) => {
                return Err(e);
            },
        };
        let ghost window = window_of(store.runs@, names);
        proof {
            flaky_count_is(records(flaky@), window);
        }
        if looks && flaky.len() > 0 {
            ui.output(
                cat5(
                    "\nObserved ",
                    count_text(flaky.len()).as_str(),
                    " flaky test(s) after ",
                    count_text(iteration).as_str(),
                    " iteration(s); stopping early.",
                ).as_str(),
            );
        } else if !last {
            proof {
                assert(said_since(old(ui)@, ui@) =~= Seq::<Line>::empty());
                assert(ui@ =~= old(ui)@ + said_since(old(ui)@, ui@));
            }
            return Ok(None);
        }
        proof {
            assert forall|i: int| 0 <= i < flaky@.len() implies (
            #[trigger] flaky@[i]).runs > 0 by {
                let rec = records(flaky@)[i];
                assert(rec == record_in(records(flaky@), i));
                changes_are_limited(history_of(window, rec.name));
            }
        }
        let any_failure: bool = p.any_failure;
        let code: i32 = self.report(&p.run_ids, &flaky, &analyses, any_failure, ui);
        proof {
            let lead = if looks && flaky@.len() > 0 {
                seq![stop_text(store.runs@, names, iteration as nat)]
            } else {
                Seq::empty()
            };
            let tail = stress_lines(names, flaky@, analyses@, any_failure);
            assert(ui@ =~= old(ui)@ + outputs(lead + tail));
            assert(said_since(old(ui)@, ui@) =~= outputs(lead + tail));
            assert(is_stress_summary(records(flaky@), analyses@, window));
        }
        Ok(Some(code))
    }
}

/// An entry of a list.
spec fn record_in(list: Seq<Record>, i: int) -> Record {
    list[i]
}

/// What was said since.
pub open spec fn said_since(before: Seq<Line>, after: Seq<Line>) -> Seq<Line> {
    after.skip(before.len() as int)
}

/// Whether no test of the runs is listed.
pub open spec fn no_flaky_tests(window: Seq<&StoredRun>) -> bool {
    forall|t: Seq<char>| #[trigger]
        seen_in(window, window.len() as int, t) ==> !ranked_tests(window, 1, true)(t)
}

/// How many tests of the runs are listed.
pub open spec fn flaky_count(window: Seq<&StoredRun>) -> nat {
    (choose|list: Seq<Record>| #[trigger]
        is_ranking(list, window, ranked_tests(window, 1, true))).len()
}

/// What is said where a command stops early.
pub open spec fn stop_text(runs: Seq<StoredRun>, names: Seq<Seq<char>>, iteration: nat) -> Seq<
    char,
> {
    "\nObserved "@ + decimal(flaky_count(window_of(runs, names))) + " flaky test(s) after "@
        + decimal(iteration) + " iteration(s); stopping early."@
}

/// A ranking is as long as there are tests to rank.
proof fn flaky_count_is(list: Seq<Record>, window: Seq<&StoredRun>)
    requires
        is_ranking(list, window, ranked_tests(window, 1, true)),
    ensures
        flaky_count(window) == list.len(),
        no_flaky_tests(window) <==> list.len() == 0,
{
    let wanted = ranked_tests(window, 1, true);
    let other = choose|other: Seq<Record>| #[trigger] is_ranking(other, window, wanted);
    ranking_len(list, other, window, wanted);
    ranking_len(other, list, window, wanted);
    if list.len() == 0 {
        assert forall|t: Seq<char>| #[trigger]
            seen_in(window, window.len() as int, t) implies !wanted(t) by {
            if wanted(t) {
                let i = choose|i: int| 0 <= i < list.len() && (#[trigger] list[i]).name == t;
            }
        }
    } else {
        assert(wanted(list[0].name));
        assert(seen_in(window, window.len() as int, list[0].name));
    }
}

/// A ranking holds no more tests than another of the same runs.
proof fn ranking_len(
    a: Seq<Record>,
    b: Seq<Record>,
    window: Seq<&StoredRun>,
    wanted: spec_fn(Seq<char>) -> bool,
)
    requires
        is_ranking(a, window, wanted),
        is_ranking(b, window, wanted),
    ensures
        a.len() <= b.len(),
{
    let names_a = Seq::new(a.len(), |i: int| a[i].name);
    let names_b = Seq::new(b.len(), |i: int| b[i].name);
    ranking_names_differ(a, window, wanted);
    assert(names_a.no_duplicates());
    names_a.unique_seq_to_set();
    vstd::seq_lib::seq_to_set_is_finite(names_b);
    names_b.lemma_cardinality_of_set();
    assert(names_a.to_set().subset_of(names_b.to_set())) by {
        assert forall|t: Seq<char>| names_a.to_set().contains(t) implies names_b.to_set().contains(
            t,
        ) by {
            let i = choose|i: int| 0 <= i < names_a.len() && names_a[i] == t;
            assert(wanted(a[i].name) && seen_in(window, window.len() as int, a[i].name));
            let j = choose|j: int| 0 <= j < b.len() && (#[trigger] b[j]).name == t;
            assert(names_b[j] == t);
        }
    }
    vstd::set_lib::lemma_len_subset(names_a.to_set(), names_b.to_set());
}

proof fn ranking_names_differ(
    a: Seq<Record>,
    window: Seq<&StoredRun>,
    wanted: spec_fn(Seq<char>) -> bool,
)
    requires
        is_ranking(a, window, wanted),
    ensures
        forall|i: int, j: int|
            0 <= i < j < a.len() ==> (#[trigger] a[i]).name != (#[trigger] a[j]).name,
{
    assert forall|i: int, j: int| 0 <= i < j < a.len() implies (#[trigger] a[i]).name != (
    #[trigger] a[j]).name by {
        if a[i].name == a[j].name {
            assert(crate::flakiness::flakier(a[i], a[j]));
            text_lt_irreflexive(a[i].name);
            assert(a[i] == a[j]);
        }
    }
}

/// A test that failed in every one of the runs is not listed, nor is one that never failed; any
/// other test of the runs is.
pub proof fn flaky_is_neither_broken_nor_stable(
    list: Seq<Record>,
    window: Seq<&StoredRun>,
    t: Seq<char>,
)
    requires
        is_ranking(list, window, ranked_tests(window, 1, true)),
        seen_in(window, window.len() as int, t),
    ensures
        has_record(list, t) <==> {
            let h = history_of(window, t);
            h.len() > 0 && crate::flakiness::failures_in(h) > 0 && !(crate::flakiness::failures_in(
                h,
            ) == h.len() && h.len() >= window.len())
        },
{
    let h = history_of(window, t);
    changes_are_limited(h);
    let wanted = ranked_tests(window, 1, true);
    if has_record(list, t) {
        let i = choose|i: int| 0 <= i < list.len() && (#[trigger] list[i]).name == t;
        assert(wanted(list[i].name));
    }
    if wanted(t) {
        let i = choose|i: int| 0 <= i < list.len() && (#[trigger] list[i]).name == t;
        assert(list[i].name == t);
    }
}

/// The exit code tells whether a test does not always fare the same: it is one exactly if a test
/// failed in one of the runs and did not fail in another, and zero otherwise, also where tests fail
/// in every run.
pub proof fn exit_code_tells_of_flaky_tests(
    store: Store,
    run_ids: Seq<Seq<char>>,
    any_failure: bool,
    lead: Seq<Seq<char>>,
    code: i32,
    said: Seq<Line>,
)
    requires
        is_stress_end(store, run_ids, any_failure, lead, code, said),
    ensures
        ({
            let window = window_of(store.runs@, run_ids);
            &&& code == 0 || code == 1
            &&& code == 1 <==> exists|t: Seq<char>, i: int, j: int|
                0 <= i < window.len() && 0 <= j < window.len() && #[trigger] failed_in(window, i, t)
                    && !#[trigger] failed_in(window, j, t)
        }),
{
    let window = window_of(store.runs@, run_ids);
    let (flaky, analyses) = choose|flaky: Seq<TestFlakiness>, analyses: Seq<Named<FailureAnalysis>>|
        #![trigger stress_lines(run_ids, flaky, analyses, any_failure)]
        is_stress_summary(records(flaky), analyses, window) && said == outputs(
            lead + stress_lines(run_ids, flaky, analyses, any_failure),
        ) && code == (if flaky.len() == 0 {
            0i32
        } else {
            1i32
        });
    let list = records(flaky);
    if flaky.len() > 0 {
        let t = list[0].name;
        crate::flakiness::failing_tests_are_ranked(list, window, 1, true, t);
        assert(exists|k: int| 0 <= k < list.len() && (#[trigger] list[k]).name == t);
        let i = choose|i: int|
            0 <= i < window.len() && has_key((#[trigger] window[i]).run.results@, t) && is_failure(
                entry_of(window[i].run.results@, t).status,
            );
        let j = choose|j: int|
            0 <= j < window.len() && !(has_key((#[trigger] window[j]).run.results@, t)
                && is_failure(entry_of(window[j].run.results@, t).status));
        assert(failed_in(window, i, t) && !failed_in(window, j, t));
    }
    if exists|t: Seq<char>, i: int, j: int|
        0 <= i < window.len() && 0 <= j < window.len() && #[trigger] failed_in(window, i, t)
            && !#[trigger] failed_in(window, j, t) {
        let (t, i, j) = choose|t: Seq<char>, i: int, j: int|
            0 <= i < window.len() && 0 <= j < window.len() && #[trigger] failed_in(window, i, t)
                && !#[trigger] failed_in(window, j, t);
        crate::flakiness::failing_tests_are_ranked(list, window, 1, true, t);
        let part = crate::flakiness::outcome_part(window, t);
        assert(part(i).len() == 1);
        let x = crate::gather::gathered_holds(part, window.len(), i, 0);
        assert(has_key(window[i].run.results@, t));
        assert(!(has_key(window[j].run.results@, t) && is_failure(
            entry_of(window[j].run.results@, t).status,
        )));
        let k = choose|k: int| 0 <= k < list.len() && (#[trigger] list[k]).name == t;
    }
}

/// An analysis names exactly the iterations and the runs in which the test failed.
pub proof fn analysis_names_the_failing_runs(
    a: Analysis,
    window: Seq<&StoredRun>,
    t: Seq<char>,
    i: int,
)
    requires
        is_analysis(a, window, t),
        0 <= i < window.len(),
    ensures
        a.iterations.contains(i + 1) <==> failed_in(window, i, t),
        failed_in(window, i, t) ==> a.run_ids.contains(window[i].run.id@),
        a.iterations.len() == a.run_ids.len(),
{
    let p = iteration_part(window, t);
    let q = run_part(window, t);
    if failed_in(window, i, t) {
        assert(p(i)[0] == i + 1);
        let x = crate::gather::gathered_holds(p, window.len(), i, 0);
        assert(q(i)[0] == window[i].run.id@);
        let y = crate::gather::gathered_holds(q, window.len(), i, 0);
    }
    if a.iterations.contains(i + 1) {
        let x = choose|x: int| 0 <= x < a.iterations.len() && a.iterations[x] == i + 1;
        let (n, m) = crate::gather::gathered_element(p, window.len(), x);
        assert(n == i);
    }
    same_length(window, t, window.len());
}

proof fn same_length(window: Seq<&StoredRun>, t: Seq<char>, n: nat)
    ensures
        gathered(iteration_part(window, t), n).len() == gathered(run_part(window, t), n).len(),
    decreases n,
{
    if n > 0 {
        same_length(window, t, (n - 1) as nat);
    }
}

/// How often a test failed in any way.
pub open spec fn failures_of(modes: Seq<Mode>) -> nat
    decreases modes.len(),
{
    if modes.len() == 0 {
        0
    } else {
        modes[0].count + failures_of(modes.drop_first())
    }
}

/// The ways in which a test failed account for each of its failures once, and no two of them are
/// told by the same message.
pub proof fn modes_account_for_failures(window: Seq<&StoredRun>, t: Seq<char>, n: nat)
    ensures
        failures_of(modes_after(window, t, n)) == gathered(iteration_part(window, t), n).len(),
        forall|i: int, j: int|
            0 <= i < j < modes_after(window, t, n).len() ==> (#[trigger] modes_after(
                window,
                t,
                n,
            )[i]).message != (#[trigger] modes_after(window, t, n)[j]).message,
    decreases n,
{
    if n > 0 {
        let m = (n - 1) as nat;
        modes_account_for_failures(window, t, m);
        if failed_in(window, n - 1, t) {
            let r = result_in(window, n - 1, t);
            one_more_failure(
                modes_after(window, t, m),
                summary_of(optional_text(r.message), optional_text(r.details)),
                nonblank(optional_text(r.details)),
            );
        }
    }
}

/// One more failure is counted once.
proof fn one_more_failure(modes: Seq<Mode>, message: Seq<char>, details: Option<Seq<char>>)
    ensures
        failures_of(with_failure(modes, message, details)) == failures_of(modes) + 1,
        (forall|i: int, j: int|
            0 <= i < j < modes.len() ==> (#[trigger] modes[i]).message != (
            #[trigger] modes[j]).message) ==> (forall|i: int, j: int|
            0 <= i < j < with_failure(modes, message, details).len() ==> (#[trigger] with_failure(
                modes,
                message,
                details,
            )[i]).message != (#[trigger] with_failure(modes, message, details)[j]).message),
        forall|i: int|
            0 <= i < with_failure(modes, message, details).len() ==> (#[trigger] with_failure(
                modes,
                message,
                details,
            )[i]).message == message || exists|k: int|
                0 <= k < modes.len() && (#[trigger] modes[k]).message == with_failure(
                    modes,
                    message,
                    details,
                )[i].message,
    decreases modes.len(),
{
    let w = with_failure(modes, message, details);
    if modes.len() == 0 {
        assert(w.drop_first() =~= Seq::<Mode>::empty());
        assert(failures_of(w.drop_first()) == 0);
    } else if modes[0].message == message {
        assert(w.drop_first() =~= modes.drop_first());
        assert forall|i: int| 0 <= i < w.len() implies (#[trigger] w[i]).message == message || exists|
            k: int,
        |
            0 <= k < modes.len() && (#[trigger] modes[k]).message == w[i].message by {
            assert(modes[i].message == w[i].message);
        }
        assert forall|i: int, j: int|
            0 <= i < j < w.len() && (forall|i: int, j: int|
                0 <= i < j < modes.len() ==> (#[trigger] modes[i]).message != (
                #[trigger] modes[j]).message) implies (#[trigger] w[i]).message != (
        #[trigger] w[j]).message by {
            assert(modes[i].message == w[i].message && modes[j].message == w[j].message);
        }
    } else {
        let rest = modes.drop_first();
        let v = with_failure(rest, message, details);
        one_more_failure(rest, message, details);
        assert(w.drop_first() =~= v);
        assert forall|i: int| 0 <= i < w.len() implies (#[trigger] w[i]).message == message || exists|
            k: int,
        |
            0 <= k < modes.len() && (#[trigger] modes[k]).message == w[i].message by {
            if i == 0 {
                assert(modes[0].message == w[0].message);
            } else {
                assert(w[i] == v[i - 1]);
                if v[i - 1].message != message {
                    let k = choose|k: int|
                        0 <= k < rest.len() && (#[trigger] rest[k]).message == v[i - 1].message;
                    assert(modes[k + 1].message == w[i].message);
                }
            }
        }
        if forall|i: int, j: int|
            0 <= i < j < modes.len() ==> (#[trigger] modes[i]).message != (
            #[trigger] modes[j]).message {
            assert forall|i: int, j: int| 0 <= i < j < rest.len() implies (
            #[trigger] rest[i]).message != (#[trigger] rest[j]).message by {
                assert(modes[i + 1].message != modes[j + 1].message);
            }
            assert forall|i: int, j: int| 0 <= i < j < w.len() implies (#[trigger] w[i]).message
                != (#[trigger] w[j]).message by {
                assert(w[j] == v[j - 1]);
                if i > 0 {
                    assert(w[i] == v[i - 1]);
                } else if v[j - 1].message != message {
                    let k = choose|k: int|
                        0 <= k < rest.len() && (#[trigger] rest[k]).message == v[j - 1].message;
                    assert(modes[0].message != modes[k + 1].message);
                }
            }
        }
    }
}

impl Command for StressCommand {
    fn name(&self) -> (r: &str)
        ensures
            r@ == "stress"@,
    {
        "stress"
    }

    fn help(&self) -> (r: &str)
        ensures
            r@ == "Run the test suite repeatedly to flush out flaky tests"@,
    {
        "Run the test suite repeatedly to flush out flaky tests"
    }
}

} // verus!
