//! What is said of a run to a service that runs tests.

use vstd::prelude::*;
use vstd::string::*;

use crate::binary::{binary_difference, binary_less, binary_product, binary_quotient, binary_seconds, seconds_are_positive, whole_nearest, Binary};
use crate::collection::{entry_of, has_key, Named, TextMap};
use crate::commands::export::{escape_param, escaped_param, first_line, format_annotation, headline, place_of_result, annotation};
use crate::config::layer::optional_text;
use crate::gather::{append_texts, gathered};
use crate::machine::current_time;
use crate::natural::Natural;
use crate::repository::{any_timed, is_failure, nanos_sum, status_text, test_names, RunId, TestId, TestResult, TestRun, TestStatus};
use crate::sort::{is_order, order_of, positions, sort_texts, sorted_order, sorted_texts, SortKey};
use crate::text::bytes::{count_bytes, text_bytes};
use crate::text::compose::{cat2, cat3, cat4, cat5, chars, join_terminated, slice, terminated, texts};
use crate::text::number::{count_text, decimal, decimal_int, decimal_text, signed_text};
use crate::text::order::text_eq;
use crate::text::scan::{contains_text, has_prefix, has_text, lines, lines_of, occurs_at, pieces, split, strip_prefix, trim, trim_end, trimmed, trimmed_end};
use crate::time::{seconds_text, seconds_with_hundredths, seconds_with_millis, Duration, MAX_NANOS};

verus! {

broadcast use {crate::text::compose::texts_push, crate::repository::test_names_push};

/// The form of what is said.
#[derive(Clone, Copy, Debug, PartialEq, Eq, Structural)]
pub enum CiFormat {
    /// Found from the environment.
    Auto,
    /// For GitHub.
    Github,
    /// For GitLab.
    Gitlab,
    /// For Forgejo, which takes values for further steps but no commands in the output.
    Forgejo,
    /// For Woodpecker, which takes neither.
    Woodpecker,
    /// For people.
    Plain,
}

/// Whether one of the tests has a name.
pub open spec fn among(tests: Seq<TestId>, name: Seq<char>) -> bool {
    has_text(test_names(tests), name)
}

/// Whether one of the tests has a name.
pub(crate) fn is_among(tests: &Vec<TestId>, name: &str) -> (r: bool)
    ensures
        r == among(tests@, name@),
{
    for i in 0..tests.len()
        invariant
            forall|k: int| 0 <= k < i ==> (#[trigger] test_names(tests@)[k]) != name@,
    {
        if text_eq(tests[i].as_str(), name) {
            assert(test_names(tests@)[i as int] == name@);
            return true;
        }
    }
    false
}

/// Whether a character may stand in the name of a section.
pub open spec fn is_section_char(c: char) -> bool {
    ('a' <= c && c <= 'z') || ('A' <= c && c <= 'Z') || ('0' <= c && c <= '9') || c == '.' || c
        == '_' || c == '-'
}

/// The name of a section for a test.
pub open spec fn section_name(s: Seq<char>) -> Seq<char> {
    if s.len() == 0 {
        "_"@
    } else {
        Seq::new(
            s.len(),
            |i: int|
                if is_section_char(s[i]) {
                    s[i]
                } else {
                    '_'
                },
        )
    }
}

/// The name of a section for a test: characters that may not stand in it are replaced by `_`.
pub fn sanitize_gitlab_section_name(s: &str) -> (r: String)
    ensures
        r@ == section_name(s@),
{
    let v: Vec<char> = chars(s);
    if v.len() == 0 {
        return "_".to_owned();
    }
    let mut out = String::new();
    for i in 0..v.len()
        invariant
            v@.len() > 0,
            out@ =~= section_name(v@).take(i as int),
    {
        let c: char = v[i];
        if ('a' <= c && c <= 'z') || ('A' <= c && c <= 'Z') || ('0' <= c && c <= '9') || c == '.'
            || c == '_' || c == '-' {
            out.push(c);
        } else {
            out.push('_');
        }
    }
    assert(out@ =~= section_name(v@));
    out
}

/// The name of a section is never empty and holds only characters that may stand in it.
pub proof fn section_names_are_accepted(s: Seq<char>)
    ensures
        section_name(s).len() > 0,
        forall|i: int|
            0 <= i < section_name(s).len() ==> is_section_char(#[trigger] section_name(s)[i]),
{
    reveal_strlit("_");
}

/// A text with a line feed behind it, unless it is empty.
pub open spec fn own_line(s: Seq<char>) -> Seq<char> {
    if s.len() == 0 {
        s
    } else {
        s + "\n"@
    }
}

/// A block for a result that can be folded.
pub open spec fn group_block(r: TestResult, format: CiFormat, ts: int) -> Seq<char> {
    let id = r.test_id@;
    let body = (match r.message {
        Some(m) => own_line(trimmed(m@)),
        None => Seq::empty(),
    }) + (match r.details {
        Some(d) => own_line(trimmed_end(d@)),
        None => Seq::empty(),
    });
    if format == CiFormat::Gitlab {
        let mark = decimal_int(ts) + ":"@ + section_name(id);
        "\x1b[0Ksection_start:"@ + mark + "[collapsed=true]\r\x1b[0K"@ + id + "\n"@ + body
            + "\x1b[0Ksection_end:"@ + mark + "\r\x1b[0K\n"@
    } else {
        "::group::"@ + id + "\n"@ + body + "::endgroup::\n"@
    }
}

/// Appends a text with a line feed behind it, unless it is empty.
fn push_own_line(out: &mut String, s: &str)
    ensures
        final(out)@ == old(out)@ + own_line(s@),
{
    if !s.is_empty() {
        out.append(s);
        out.append("\n");
    }
    assert(out@ =~= old(out)@ + own_line(s@));
}

/// A block for a result that can be folded, marked with the time `ts` where the format asks for a
/// time.
pub fn format_group_block_with(result: &TestResult, format: CiFormat, ts: i64) -> (s: String)
    ensures
        s@ == group_block(*result, format, ts as int),
{
    let mut body = String::new();
    if let Some(m) = &result.message {
        push_own_line(&mut body, trim(m.as_str()).as_str());
    }
    if let Some(d) = &result.details {
        push_own_line(&mut body, trim_end(d.as_str()).as_str());
    }
    let id: &str = result.test_id.as_str();
    let ghost b = (match &result.message {
        Some(m) => own_line(trimmed(m@)),
        None => Seq::empty(),
    }) + (match &result.details {
        Some(d) => own_line(trimmed_end(d@)),
        None => Seq::empty(),
    });
    assert(body@ =~= b);
    if format == CiFormat::Gitlab {
        let mark: String = cat3(
            signed_text(ts).as_str(),
            ":",
            sanitize_gitlab_section_name(id).as_str(),
        );
        let mut s: String = cat4(
            "\x1b[0Ksection_start:",
            mark.as_str(),
            "[collapsed=true]\r\x1b[0K",
            id,
        );
        s.append("\n");
        s.append(body.as_str());
        s.append("\x1b[0Ksection_end:");
        s.append(mark.as_str());
        s.append("\r\x1b[0K\n");
        s
    } else {
        cat5("::group::", id, "\n", body.as_str(), "::endgroup::\n")
    }
}

/// A block for a result that can be folded.
pub fn format_group_block(result: &TestResult, format: CiFormat) -> (s: String)
    ensures
        exists|ts: int| s@ == #[trigger] group_block(*result, format, ts),
        format != CiFormat::Gitlab ==> s@ == group_block(*result, format, 0),
{
    let ts: i64 = current_time().seconds;
    let s: String = format_group_block_with(result, format, ts);
    assert(s@ == group_block(*result, format, ts as int));
    s
}

/// The block for the result at a position, unless it is no failure or is to be passed over.
pub open spec fn group_part(
    s: Seq<TestResult>,
    skip: Option<Seq<TestId>>,
    format: CiFormat,
    ts: int,
) -> spec_fn(int) -> Seq<char> {
    |i: int|
        if is_failure(s[i].status) && !(skip is Some && among(skip->0, s[i].test_id@)) {
            group_block(s[i], format, ts)
        } else {
            Seq::empty()
        }
}

/// The tests to pass over.
pub open spec fn skip_view(skip: Option<&Vec<TestId>>) -> Option<Seq<TestId>> {
    match skip {
        Some(v) => Some(v@),
        None => None,
    }
}

/// The blocks for the failures of a run, without those to be passed over.
pub fn format_failure_groups_at(
    run: &TestRun,
    skip: Option<&Vec<TestId>>,
    format: CiFormat,
    ts: i64,
) -> (s: String)
    ensures
        s@ == gathered(
            group_part(run.results@, skip_view(skip), format, ts as int),
            run.results@.len(),
        ),
{
    let v: &Vec<TestResult> = run.results.entries();
    let mut out = String::new();
    for i in 0..v.len()
        invariant
            v@ == run.results@,
            out@ =~= gathered(
                group_part(run.results@, skip_view(skip), format, ts as int),
                i as nat,
            ),
    {
        let skipped: bool = match skip {
            Some(ids) => is_among(ids, v[i].test_id.as_str()),
            None => false,
        };
        if v[i].status.is_failure() && !skipped {
            out.append(format_group_block_with(&v[i], format, ts).as_str());
        }
    }
    out
}

/// The blocks for the failures of a run, without those to be passed over.
pub fn format_failure_groups(
    run: &TestRun,
    skip: Option<&Vec<TestId>>,
    format: CiFormat,
) -> (s: String)
    ensures
        exists|ts: int|
            s@ == gathered(
                #[trigger] group_part(run.results@, skip_view(skip), format, ts),
                run.results@.len(),
            ),
{
    let ts: i64 = current_time().seconds;
    let s: String = format_failure_groups_at(run, skip, format, ts);
    assert(s@ == gathered(
        group_part(run.results@, skip_view(skip), format, ts as int),
        run.results@.len(),
    ));
    s
}

/// The block of a failure is the same by itself and among those of a run.
pub proof fn blocks_are_the_same_alone(r: TestResult, format: CiFormat, ts: int)
    requires
        is_failure(r.status),
    ensures
        gathered(group_part(seq![r], None, format, ts), 1) == group_block(r, format, ts),
{
    reveal_with_fuel(gathered, 2);
    let part = group_part(seq![r], None, format, ts);
    assert(seq![r][0] == r);
    assert(gathered(part, 1) =~= part(0));
}

/// The names of tests in order.
pub open spec fn sorted_names(tests: Seq<TestId>) -> Seq<Seq<char>> {
    sorted_texts(test_names(tests))
}

/// The names of tests in order.
fn sort_names(tests: &Vec<TestId>) -> (r: Vec<String>)
    ensures
        texts(r@) == sorted_names(tests@),
{
    let mut names: Vec<String> = Vec::new();
    for i in 0..tests.len()
        invariant
            texts(names@) =~= test_names(tests@).take(i as int),
    {
        names.push(tests[i].as_str().to_owned());
    }
    assert(texts(names@) =~= test_names(tests@));
    sort_texts(&names)
}

/// A warning for a test that passed when it was run again.
pub open spec fn flaky_warning(s: Seq<TestResult>, name: Seq<char>) -> Seq<char> {
    let known = has_key(s, name);
    let r = entry_of(s, name);
    annotation(
        "warning"@,
        if known {
            place_of_result(r.details)
        } else {
            None
        },
        "Flaky: "@ + escaped_param(name),
        (if known {
            headline(optional_text(r.message), "passed on retry"@)
        } else {
            "passed on retry"@
        }) + " (passed on retry)"@,
    )
}

/// A warning for the test at a position.
pub open spec fn warning_part(s: Seq<TestResult>, names: Seq<Seq<char>>) -> spec_fn(int) -> Seq<
    char,
> {
    |i: int| flaky_warning(s, names[i])
}

/// Warnings for tests that passed when they were run again.
pub fn format_flaky_warnings(run: &TestRun, flaky: &Vec<TestId>) -> (s: String)
    ensures
        s@ == gathered(warning_part(run.results@, sorted_names(flaky@)), flaky@.len()),
{
    let names: Vec<String> = sort_names(flaky);
    let ghost all = sorted_names(flaky@);
    proof {
        crate::sort::sorted_texts_ascend(test_names(flaky@));
    }
    let mut out = String::new();
    for i in 0..names.len()
        invariant
            all == texts(names@),
            out@ =~= gathered(warning_part(run.results@, all), i as nat),
    {
        assert(all[i as int] == names@[i as int]@);
        let title: String = cat2("Flaky: ", escape_param(names[i].as_str()).as_str());
        let line: String = match run.results.find(names[i].as_str()) {
            Some(r) => {
                let message: String = first_line(&r.message, "passed on retry");
                format_annotation(
                    "warning",
                    &r.details,
                    title.as_str(),
                    cat2(message.as_str(), " (passed on retry)").as_str(),
                )
            },
            None => format_annotation(
                "warning",
                &None,
                title.as_str(),
                cat2("passed on retry", " (passed on retry)").as_str(),
            ),
        };
        out.append(line.as_str());
    }
    assert(texts(names@).len() == names@.len());
    out
}

/// The position of the first two colons; the length where there are none.
pub open spec fn first_colons(s: Seq<char>, from: int) -> int
    decreases s.len() - from,
{
    if from >= s.len() {
        s.len() as int
    } else if occurs_at(s, "::"@, from) {
        from
    } else {
        first_colons(s, from + 1)
    }
}

/// The title among parameters.
pub open spec fn title_among(params: Seq<Seq<char>>) -> Option<Seq<char>>
    decreases params.len(),
{
    if params.len() == 0 {
        None
    } else if has_prefix(params[0], "title="@) {
        Some(params[0].skip(6))
    } else {
        title_among(params.drop_first())
    }
}

/// The title of an error command: its parameters stand between its name and the first two colons.
pub open spec fn title_of(line: Seq<char>) -> Option<Seq<char>> {
    if has_prefix(line, "::error "@) {
        let rest = line.skip(8);
        title_among(pieces(rest.take(first_colons(rest, 0)), ','))
    } else {
        None
    }
}

/// Whether a line is an error command for one of the tests.
pub open spec fn is_kept(line: Seq<char>, titles: Seq<Seq<char>>) -> bool {
    title_of(line) matches Some(t) && has_text(titles, t)
}

/// The lines that are error commands for one of the tests.
pub open spec fn kept_lines(list: Seq<Seq<char>>, titles: Seq<Seq<char>>) -> Seq<Seq<char>>
    decreases list.len(),
{
    if list.len() == 0 {
        Seq::empty()
    } else {
        let before = kept_lines(list.drop_last(), titles);
        if is_kept(list.last(), titles) {
            before.push(list.last())
        } else {
            before
        }
    }
}

/// The titles of tests.
pub open spec fn titles_of(names: Seq<Seq<char>>) -> Seq<Seq<char>> {
    Seq::new(names.len(), |i: int| escaped_param(names[i]))
}

/// Two colons at a position.
proof fn colons_at(s: Seq<char>, i: int)
    requires
        0 <= i < s.len(),
    ensures
        occurs_at(s, "::"@, i) == (i + 1 < s.len() && s[i] == ':' && s[i + 1] == ':'),
{
    reveal_strlit("::");
    let p = "::"@;
    if i + 2 <= s.len() {
        if s[i] == ':' && s[i + 1] == ':' {
            assert(s.subrange(i, i + 2) =~= p);
        }
        if s.subrange(i, i + 2) == p {
            assert(s.subrange(i, i + 2)[0] == p[0] && s.subrange(i, i + 2)[1] == p[1]);
        }
    }
}

/// The title of an error command.
fn find_title(line: &str) -> (r: Option<String>)
    ensures
        match title_of(line@) {
            Some(t) => r matches Some(s) && s@ == t,
            None => r is None,
        },
{
    proof {
        reveal_strlit("::error ");
        reveal_strlit("title=");
    }
    let rest: String = match strip_prefix(line, "::error ") {
        Some(s) => s,
        None => {
            return None;
        },
    };
    let v: Vec<char> = chars(rest.as_str());
    let n: usize = v.len();
    let mut end: usize = 0;
    while end < n && !(n - end > 1 && v[end] == ':' && v[end + 1] == ':')
        invariant
            end <= n == v@.len(),
            first_colons(v@, 0) == first_colons(v@, end as int),
        decreases n - end,
    {
        proof {
            colons_at(v@, end as int);
        }
        end += 1;
    }
    proof {
        if end < n {
            colons_at(v@, end as int);
        }
    }
    let head: String = slice(&v, 0, end);
    assert(head@ =~= rest@.take(end as int));
    let params: Vec<String> = split(head.as_str(), ',');
    let ghost all = texts(params@);
    assert(all.skip(0) =~= all);
    for i in 0..params.len()
        invariant
            all == texts(params@),
            "title="@.len() == 6,
            title_among(all) == title_among(all.skip(i as int)),
            title_of(line@) == title_among(all),
    {
        assert(all.skip(i as int)[0] == params@[i as int]@);
        assert(all.skip(i as int).drop_first() =~= all.skip(i + 1));
        if let Some(t) = strip_prefix(params[i].as_str(), "title=") {
            return Some(t);
        }
    }
    None
}

/// The error commands among lines that are for one of the tests.
pub fn filter_annotations(annotations: &str, keep: &Vec<TestId>) -> (s: String)
    ensures
        s@ == terminated(kept_lines(lines_of(annotations@), titles_of(test_names(keep@))), "\n"@),
{
    let mut titles: Vec<String> = Vec::new();
    for i in 0..keep.len()
        invariant
            texts(titles@) =~= titles_of(test_names(keep@)).take(i as int),
    {
        titles.push(escape_param(keep[i].as_str()));
    }
    assert(texts(titles@) =~= titles_of(test_names(keep@)));
    let list: Vec<String> = lines(annotations);
    let ghost all = texts(list@);
    let mut kept: Vec<String> = Vec::new();
    assert(texts(kept@) =~= kept_lines(all.take(0), titles_of(test_names(keep@))));
    for i in 0..list.len()
        invariant
            all == texts(list@),
            texts(titles@) == titles_of(test_names(keep@)),
            texts(kept@) == kept_lines(all.take(i as int), titles_of(test_names(keep@))),
    {
        assert(all.take(i + 1).drop_last() =~= all.take(i as int));
        let found: bool = match find_title(list[i].as_str()) {
            Some(t) => contains_text(&titles, t.as_str()),
            None => false,
        };
        if found {
            kept.push(list[i].clone());
        }
    }
    assert(all.take(list@.len() as int) =~= all);
    join_terminated(&kept, "\n")
}

/// How a test fared in recent runs.
#[derive(Clone, Copy, Debug, PartialEq, Eq, Structural)]
pub struct TestHistory {
    /// In how many of them it failed.
    pub failures: usize,
    /// How many of them have a result of it.
    pub runs_seen: usize,
}

impl Default for TestHistory {
    fn default() -> (r: TestHistory)
        ensures
            r == (TestHistory { failures: 0, runs_seen: 0 }),
    {
        TestHistory { failures: 0, runs_seen: 0 }
    }
}

/// What is said of how a test fared in recent runs; nothing where none has a result of it.
pub open spec fn history_hint(name: Seq<char>, history: Seq<Named<TestHistory>>) -> Seq<char> {
    let h = entry_of(history, name).value;
    if has_key(history, name) && h.runs_seen > 0 {
        " (failed "@ + decimal(h.failures as nat) + " of last "@ + decimal(h.runs_seen as nat)
            + ")"@
    } else {
        Seq::empty()
    }
}

/// What is said of how a test fared in recent runs.
pub fn format_history_hint(test_id: &str, history: &TextMap<TestHistory>) -> (s: String)
    ensures
        s@ == history_hint(test_id@, history@),
{
    match history.get(test_id) {
        Some(h) => if h.runs_seen > 0 {
            cat5(
                " (failed ",
                count_text(h.failures).as_str(),
                " of last ",
                count_text(h.runs_seen).as_str(),
                ")",
            )
        } else {
            String::new()
        },
        None => String::new(),
    }
}

/// How many lines of a traceback are kept.
pub const SUMMARY_DETAILS_MAX_LINES: usize = 20;

/// How many bytes of a traceback are kept.
pub const SUMMARY_DETAILS_MAX_BYTES: usize = 2048;

/// How many of the first `n` lines fit: at most twenty, and at most 2048 bytes with their line
/// feeds.
pub open spec fn fitting(list: Seq<Seq<char>>, n: nat) -> nat
    decreases n,
{
    if n == 0 {
        0
    } else {
        let before = fitting(list, (n - 1) as nat);
        if before < n - 1 || n - 1 >= 20 || bytes_of(list.take(n - 1)) + text_bytes(list[n - 1]) + 1
            > 2048 {
            before
        } else {
            n
        }
    }
}

/// How many bytes lines take with their line feeds.
pub open spec fn bytes_of(list: Seq<Seq<char>>) -> nat
    decreases list.len(),
{
    if list.len() == 0 {
        0
    } else {
        bytes_of(list.drop_last()) + text_bytes(list.last()) + 1
    }
}

/// The start of a traceback, with a mark where something is cut off.
pub open spec fn truncated(details: Seq<char>) -> Seq<char> {
    let list = lines_of(details);
    let n = fitting(list, list.len());
    terminated(list.take(n as int), "\n"@) + if n < list.len() {
        "... (truncated)\n"@
    } else {
        Seq::empty()
    }
}

/// Lines that do not fit are not followed by lines that do.
proof fn fitting_stays(list: Seq<Seq<char>>, m: nat, n: nat)
    requires
        m <= n,
        fitting(list, m) < m,
    ensures
        fitting(list, n) == fitting(list, m),
    decreases n,
{
    if m < n {
        fitting_stays(list, m, (n - 1) as nat);
    }
}

/// What is kept of a traceback is at most twenty lines and, with their line feeds, 2048 bytes.
pub proof fn kept_traceback_is_bounded(list: Seq<Seq<char>>, n: nat)
    requires
        n <= list.len(),
    ensures
        fitting(list, n) <= n,
        fitting(list, n) <= 20,
        bytes_of(list.take(fitting(list, n) as int)) <= 2048,
    decreases n,
{
    if n > 0 {
        kept_traceback_is_bounded(list, (n - 1) as nat);
        assert(list.take(n as int).drop_last() =~= list.take(n - 1));
    } else {
        assert(list.take(0) =~= Seq::<Seq<char>>::empty());
    }
}

/// The start of a traceback, with a mark where something is cut off.
pub fn truncate_details(details: &str) -> (s: String)
    ensures
        s@ == truncated(details@),
{
    let list: Vec<String> = lines(details);
    let ghost all = texts(list@);
    let total: usize = list.len();
    assert(all.len() == total);
    let mut bytes: u128 = 0;
    let mut n: usize = 0;
    let mut kept: Vec<String> = Vec::new();
    while n < total && n < SUMMARY_DETAILS_MAX_LINES
        invariant
            total == list@.len(),
            n <= total,
            n <= 20,
            all == texts(list@),
            all.len() == total,
            fitting(all, n as nat) == n,
            bytes == bytes_of(all.take(n as int)),
            bytes <= 2048,
            n == 20 && n < total ==> fitting(all, all.len()) == n,
            texts(kept@) =~= all.take(n as int),
        ensures
            n <= total,
            texts(kept@) == all.take(n as int),
            fitting(all, all.len()) == n,
        decreases total - n,
    {
        let more: u128 = count_bytes(list[n].as_str());
        proof {
            assert(all.take(n + 1).drop_last() =~= all.take(n as int));
            assert(all[n as int] == list@[n as int]@);
        }
        if bytes + more + 1 > SUMMARY_DETAILS_MAX_BYTES as u128 {
            proof {
                assert(fitting(all, (n + 1) as nat) == n);
                fitting_stays(all, (n + 1) as nat, all.len());
            }
            break;
        }
        bytes = bytes + more + 1;
        kept.push(list[n].clone());
        n += 1;
        proof {
            if n == 20 && n < total {
                assert(fitting(all, 20) == 20);
                assert(fitting(all, 21) == 20);
                fitting_stays(all, 21, all.len());
            }
        }
    }
    let mut s: String = join_terminated(&kept, "\n");
    if n < total {
        s.append("... (truncated)\n");
    }
    assert(s@ =~= truncated(details@));
    s
}

/// The lines of a block for a traceback.
pub open spec fn block_lines(details: Seq<char>) -> Seq<Seq<char>> {
    let body = truncated(details);
    if body.len() == 0 {
        Seq::empty()
    } else {
        seq!["  <details><summary>traceback</summary>"@, ""@, "  ```"@] + gathered(
            indented_part(lines_of(body)),
            lines_of(body).len(),
        ) + seq!["  ```"@, ""@, "  </details>"@]
    }
}

/// A line behind two blanks.
pub open spec fn indented_part(list: Seq<Seq<char>>) -> spec_fn(int) -> Seq<Seq<char>> {
    |i: int| seq!["  "@ + list[i]]
}

/// The lines of a block for a traceback.
fn render_block(details: &str) -> (r: Vec<String>)
    ensures
        texts(r@) == block_lines(details@),
{
    let body: String = truncate_details(details);
    let mut r: Vec<String> = Vec::new();
    if !body.as_str().is_empty() {
        r.push("  <details><summary>traceback</summary>".to_owned());
        r.push("".to_owned());
        r.push("  ```".to_owned());
        let ghost head = texts(r@);
        let list: Vec<String> = lines(body.as_str());
        let ghost all = texts(list@);
        for i in 0..list.len()
            invariant
                all == texts(list@),
                texts(r@) =~= head + gathered(indented_part(all), i as nat),
        {
            r.push(cat2("  ", list[i].as_str()));
        }
        r.push("  ```".to_owned());
        r.push("".to_owned());
        r.push("  </details>".to_owned());
    }
    assert(texts(r@) =~= block_lines(details@));
    r
}

/// Appends a block for a traceback.
pub fn write_details_block(out: &mut String, details: &str)
    ensures
        final(out)@ == old(out)@ + terminated(block_lines(details@), "\n"@),
{
    let list: Vec<String> = render_block(details);
    out.append(join_terminated(&list, "\n").as_str());
}

/// A number, or a limit where the number is larger.
pub open spec fn at_most(n: nat, limit: nat) -> nat {
    if n > limit {
        limit
    } else {
        n
    }
}

/// A span for people: milliseconds below a second, hundredths of a second below a minute, else
/// minutes and whole seconds.
pub open spec fn human_text(nanos: nat) -> Seq<char> {
    if nanos < 1_000_000_000 {
        decimal(nanos / 1_000_000) + "ms"@
    } else if nanos < 60_000_000_000 {
        seconds_text(nanos, 2) + "s"@
    } else {
        let whole = at_most(whole_nearest(binary_seconds(nanos)), u64::MAX as nat);
        decimal(whole / 60) + "m"@ + decimal(whole % 60) + "s"@
    }
}

/// A number, or a limit where the number is larger.
fn limit_to(n: &Natural, limit: u128) -> (r: u128)
    ensures
        r == at_most(n@, limit as nat),
{
    if Natural::from_u128(limit).less(n) {
        limit
    } else {
        n.to_u128()
    }
}

/// A span for people.
pub fn format_duration_human(d: Duration) -> (s: String)
    ensures
        s@ == human_text(d@),
{
    let n: u128 = d.as_nanos();
    if n < 1_000_000_000 {
        cat2(decimal_text(d.as_millis()).as_str(), "ms")
    } else if n < 60_000_000_000 {
        cat2(seconds_with_hundredths(d).as_str(), "s")
    } else {
        let whole: u128 = limit_to(&Binary::seconds(d).nearest_whole(), u64::MAX as u128);
        cat4(decimal_text(whole / 60).as_str(), "m", decimal_text(whole % 60).as_str(), "s")
    }
}

/// By how many percent a span differs from a base, at most the largest signed 64-bit number.
pub open spec fn percent_changed(nanos: nat, base: nat) -> nat {
    let (x, y) = (binary_seconds(nanos), binary_seconds(base));
    at_most(
        whole_nearest(binary_product(binary_quotient(binary_difference(x, y), y), 100)),
        i64::MAX as nat,
    )
}

/// How a span compares to a base.
pub open spec fn change_text(nanos: nat, base: nat) -> Seq<char> {
    let n = percent_changed(nanos, base);
    if n == 0 {
        "no change"@
    } else if binary_less(binary_seconds(base), binary_seconds(nanos)) {
        "up "@ + decimal(n) + "%"@
    } else {
        "down "@ + decimal(n) + "%"@
    }
}

/// What is said of how long a run took.
pub open spec fn runtime_text(run: TestRun, nanos: nat, baseline: Option<nat>) -> Seq<char> {
    "**Runtime:** "@ + human_text(nanos) + (if baseline is Some && baseline->0 > 0 {
        " ("@ + change_text(nanos, baseline->0) + " vs avg of last runs, "@ + human_text(
            baseline->0,
        ) + ")"@
    } else {
        Seq::empty()
    }) + (if any_timed(run.results@) {
        "  \u{2014}  test time: "@ + human_text(nanos_sum(run.results@))
    } else {
        Seq::empty()
    })
}

/// The nanoseconds of an optional span.
pub open spec fn span_nanos(d: Option<Duration>) -> Option<nat> {
    match d {
        Some(d) => Some(d@),
        None => None,
    }
}

/// How a span compares to a base.
fn format_change(d: Duration, base: Duration) -> (s: String)
    requires
        base@ > 0,
    ensures
        s@ == change_text(d@, base@),
{
    proof {
        seconds_are_positive(base@);
    }
    let x: Binary = Binary::seconds(d);
    let y: Binary = Binary::seconds(base);
    let percent: Binary = x.distance(&y).over(&y).times(100);
    let p: u128 = limit_to(&percent.nearest_whole(), i64::MAX as u128);
    if p == 0 {
        "no change".to_owned()
    } else if y.less(&x) {
        cat3("up ", decimal_text(p).as_str(), "%")
    } else {
        cat3("down ", decimal_text(p).as_str(), "%")
    }
}

/// What is said of how long a run took: in all, in relation to recent runs, and the time spent in
/// tests.
pub fn format_runtime_line(
    run: &TestRun,
    duration: Duration,
    baseline_duration: Option<Duration>,
) -> (s: String)
    requires
        nanos_sum(run.results@) <= MAX_NANOS,
    ensures
        s@ == runtime_text(*run, duration@, span_nanos(baseline_duration)),
{
    let mut s: String = cat2("**Runtime:** ", format_duration_human(duration).as_str());
    if let Some(base) = baseline_duration {
        if base.as_nanos() > 0 {
            let change: String = format_change(duration, base);
            let more: String = cat5(
                " (",
                change.as_str(),
                " vs avg of last runs, ",
                format_duration_human(base).as_str(),
                ")",
            );
            s.append(more.as_str());
        }
    }
    let ghost head = s@;
    if let Some(t) = run.total_duration() {
        s.append(cat2("  \u{2014}  test time: ", format_duration_human(t).as_str()).as_str());
    }
    assert(s@ =~= runtime_text(*run, duration@, span_nanos(baseline_duration)));
    s
}

/// How many of the slowest tests are listed.
pub const SUMMARY_SLOWEST_COUNT: usize = 5;

/// A test with how long it took.
#[derive(Debug)]
pub struct TimedTest {
    /// The name.
    pub name: String,
    /// How long it took.
    pub duration: Duration,
}

impl SortKey for TimedTest {
    /// The slowest first.
    open spec fn before(&self, other: &Self) -> bool {
        self.duration@ > other.duration@
    }

    proof fn weak_order(a: &Self, b: &Self, c: &Self) {
    }

    fn is_before(&self, other: &Self) -> (r: bool) {
        self.duration.as_nanos() > other.duration.as_nanos()
    }
}

/// Whether `v` lists the results that have a duration, in order.
pub open spec fn lists_timed(v: Seq<TimedTest>, s: Seq<TestResult>) -> bool
    decreases s.len(),
{
    if s.len() == 0 {
        v.len() == 0
    } else {
        match s.last().duration {
            Some(d) => v.len() > 0 && v.last().name@ == s.last().test_id@ && v.last().duration == d
                && lists_timed(v.drop_last(), s.drop_last()),
            None => lists_timed(v, s.drop_last()),
        }
    }
}

/// A test in the list of the slowest.
pub open spec fn slow_part(v: Seq<TimedTest>, o: Seq<int>) -> spec_fn(int) -> Seq<Seq<char>> {
    |i: int| seq!["- `"@ + v[o[i]].name@ + "` — "@ + human_text(v[o[i]].duration@)]
}

/// The list of the slowest tests: at most five, the slowest first and by name among equals.
pub open spec fn slowest_lines(v: Seq<TimedTest>) -> Seq<Seq<char>> {
    let n = if v.len() > 5 {
        5nat
    } else {
        v.len()
    };
    if v.len() == 0 {
        Seq::empty()
    } else {
        seq![""@, "<details><summary>Slowest tests ("@ + decimal(n) + ")</summary>"@, ""@]
            + gathered(slow_part(v, order_of(v)), n) + seq![""@, "</details>"@]
    }
}

/// The slowest tests are listed first, at most five of them, of all tests with a duration.
pub proof fn slowest_tests_are_listed_first(v: Seq<TimedTest>, s: Seq<TestResult>, i: int, j: int)
    requires
        lists_timed(v, s),
        0 <= i < j < v.len(),
    ensures
        v[order_of(v)[i]].duration@ >= v[order_of(v)[j]].duration@,
        slowest_lines(v).len() <= 10,
        forall|k: int|
            0 <= k < s.len() && (#[trigger] s[k]).duration is Some ==> exists|q: int|
                0 <= q < v.len() && (#[trigger] v[q]).name@ == s[k].test_id@ && v[q].duration
                    == s[k].duration->0,
{
    crate::sort::order_exists(v);
    let o = order_of(v);
    assert(crate::sort::ranks_before(v, o[i], o[j]));
    one_slow_line_each(v, o, if v.len() > 5 {
        5
    } else {
        v.len()
    });
    assert forall|k: int| 0 <= k < s.len() && (#[trigger] s[k]).duration is Some implies exists|q: int|
        0 <= q < v.len() && (#[trigger] v[q]).name@ == s[k].test_id@ && v[q].duration
            == s[k].duration->0 by {
        timed_are_listed(v, s, k);
    }
}

proof fn one_slow_line_each(v: Seq<TimedTest>, o: Seq<int>, n: nat)
    ensures
        gathered(slow_part(v, o), n).len() == n,
    decreases n,
{
    if n > 0 {
        one_slow_line_each(v, o, (n - 1) as nat);
    }
}

proof fn timed_are_listed(v: Seq<TimedTest>, s: Seq<TestResult>, k: int)
    requires
        lists_timed(v, s),
        0 <= k < s.len(),
        s[k].duration is Some,
    ensures
        exists|q: int|
            0 <= q < v.len() && (#[trigger] v[q]).name@ == s[k].test_id@ && v[q].duration
                == s[k].duration->0,
    decreases s.len(),
{
    let init = s.drop_last();
    if k == init.len() {
        assert(v[v.len() - 1].name@ == s[k].test_id@);
    } else {
        let w = if s.last().duration is Some {
            v.drop_last()
        } else {
            v
        };
        timed_are_listed(w, init, k);
        let q = choose|q: int|
            0 <= q < w.len() && (#[trigger] w[q]).name@ == init[k].test_id@ && w[q].duration
                == init[k].duration->0;
        assert(v[q].name@ == s[k].test_id@);
    }
}

/// Results are counted one by one: those that follow each other have the counts of both.
pub proof fn statuses_are_counted(a: Seq<TestResult>, b: Seq<TestResult>, x: TestStatus, y: TestStatus)
    ensures
        count_of(a + b, x, y) == count_of(a, x, y) + count_of(b, x, y),
        b.len() == 1 ==> count_of(b, x, y) == (if b[0].status == x || b[0].status == y {
            1nat
        } else {
            0
        }),
    decreases b.len(),
{
    if b.len() == 0 {
        assert(a + b =~= a);
    } else {
        assert((a + b).drop_last() =~= a + b.drop_last());
        statuses_are_counted(a, b.drop_last(), x, y);
    }
}

/// Every result is counted once in a summary: as passed, failed, errored or skipped. Those that are
/// failed or errored are the failures.
pub proof fn counts_add_up(s: Seq<TestResult>)
    ensures
        count_of(s, TestStatus::Success, TestStatus::Success) + count_of(
            s,
            TestStatus::Failure,
            TestStatus::UnexpectedSuccess,
        ) + count_of(s, TestStatus::Error, TestStatus::Error) + count_of(
            s,
            TestStatus::Skip,
            TestStatus::ExpectedFailure,
        ) == s.len(),
        crate::repository::failure_count(s) == count_of(
            s,
            TestStatus::Failure,
            TestStatus::UnexpectedSuccess,
        ) + count_of(s, TestStatus::Error, TestStatus::Error),
    decreases s.len(),
{
    if s.len() > 0 {
        counts_add_up(s.drop_last());
    }
}

/// Whether `lines` is the list of the slowest tests of the results.
pub open spec fn is_slowest_list(lines: Seq<Seq<char>>, s: Seq<TestResult>) -> bool {
    exists|v: Seq<TimedTest>| #[trigger] lists_timed(v, s) && lines == slowest_lines(v)
}

/// The list of the slowest tests.
fn render_slowest(run: &TestRun) -> (r: Vec<String>)
    ensures
        is_slowest_list(texts(r@), run.results@),
{
    let all: &Vec<TestResult> = run.results.entries();
    let mut v: Vec<TimedTest> = Vec::new();
    for i in 0..all.len()
        invariant
            all@ == run.results@,
            lists_timed(v@, all@.take(i as int)),
    {
        let ghost before = v@;
        assert(all@.take(i + 1).drop_last() =~= all@.take(i as int));
        if let Some(d) = all[i].duration {
            v.push(TimedTest { name: all[i].test_id.as_str().to_owned(), duration: d });
            assert(v@.drop_last() =~= before);
        }
    }
    assert(all@.take(all@.len() as int) =~= all@);
    let mut r: Vec<String> = Vec::new();
    if v.len() > 0 {
        let order: Vec<usize> = sorted_order(&v);
        let ghost o = positions(order@);
        let n: usize = if v.len() > SUMMARY_SLOWEST_COUNT {
            SUMMARY_SLOWEST_COUNT
        } else {
            v.len()
        };
        r.push("".to_owned());
        r.push(
            cat3(
                "<details><summary>Slowest tests (",
                count_text(n).as_str(),
                ")</summary>",
            ),
        );
        r.push("".to_owned());
        let ghost head = texts(r@);
        for i in 0..n
            invariant
                n <= v@.len(),
                o == positions(order@),
                is_order(v@, o),
                texts(r@) =~= head + gathered(slow_part(v@, o), i as nat),
        {
            assert(0 <= o[i as int] < v@.len());
            let t: &TimedTest = &v[order[i]];
            r.push(
                cat4(
                    "- `",
                    t.name.as_str(),
                    "` — ",
                    format_duration_human(t.duration).as_str(),
                ),
            );
        }
        r.push("".to_owned());
        r.push("</details>".to_owned());
    }
    assert(texts(r@) =~= slowest_lines(v@));
    r
}

/// Appends the list of the slowest tests.
pub fn write_slowest_tests_block(out: &mut String, run: &TestRun)
    ensures
        exists|lines: Seq<Seq<char>>| #[trigger]
            is_slowest_list(lines, run.results@) && final(out)@ == old(out)@ + terminated(
                lines,
                "\n"@,
            ),
{
    let list: Vec<String> = render_slowest(run);
    out.append(join_terminated(&list, "\n").as_str());
    assert(is_slowest_list(texts(list@), run.results@));
}

/// How many results have one of two statuses.
pub open spec fn count_of(s: Seq<TestResult>, a: TestStatus, b: TestStatus) -> nat
    decreases s.len(),
{
    if s.len() == 0 {
        0
    } else {
        count_of(s.drop_last(), a, b) + if s.last().status == a || s.last().status == b {
            1nat
        } else {
            0nat
        }
    }
}

/// How many results have one of two statuses.
fn count_statuses(v: &Vec<TestResult>, a: TestStatus, b: TestStatus) -> (n: usize)
    ensures
        n == count_of(v@, a, b),
{
    let mut n: usize = 0;
    for i in 0..v.len()
        invariant
            n == count_of(v@.take(i as int), a, b),
            n <= i,
    {
        assert(v@.take(i + 1).drop_last() =~= v@.take(i as int));
        if v[i].status == a || v[i].status == b {
            n += 1;
        }
    }
    assert(v@.take(v@.len() as int) =~= v@);
    n
}

/// The block for the details of a result, where they are not blank.
pub open spec fn details_of(details: Option<String>) -> Seq<Seq<char>> {
    if details is Some && trimmed(details->0@).len() > 0 {
        block_lines(trimmed(details->0@))
    } else {
        Seq::empty()
    }
}

/// The block for the details of a result.
fn render_details(details: &Option<String>) -> (r: Vec<String>)
    ensures
        texts(r@) == details_of(*details),
{
    if let Some(d) = details {
        let t: String = trim(d.as_str());
        if !t.as_str().is_empty() {
            return render_block(t.as_str());
        }
    }
    let r: Vec<String> = Vec::new();
    assert(texts(r@) =~= Seq::<Seq<char>>::empty());
    r
}

/// Whether a result is a failure that did not pass when it was run again.
pub open spec fn is_hard(r: TestResult, flaky: Seq<TestId>) -> bool {
    is_failure(r.status) && !among(flaky, r.test_id@)
}

/// What is said of a failure.
pub open spec fn failing_part(
    s: Seq<TestResult>,
    flaky: Seq<TestId>,
    history: Seq<Named<TestHistory>>,
) -> spec_fn(int) -> Seq<Seq<char>> {
    |i: int|
        if is_hard(s[i], flaky) {
            seq![
                "- `"@ + s[i].test_id@ + "` — "@ + headline(
                    optional_text(s[i].message),
                    status_text(s[i].status),
                ) + history_hint(s[i].test_id@, history),
            ] + details_of(s[i].details)
        } else {
            Seq::empty()
        }
}

/// How many failures did not pass when they were run again.
pub open spec fn hard_count(s: Seq<TestResult>, flaky: Seq<TestId>) -> nat
    decreases s.len(),
{
    if s.len() == 0 {
        0
    } else {
        hard_count(s.drop_last(), flaky) + if is_hard(s.last(), flaky) {
            1nat
        } else {
            0nat
        }
    }
}

/// What is said of a test that passed when it was run again.
pub open spec fn flaky_part(
    s: Seq<TestResult>,
    names: Seq<Seq<char>>,
    history: Seq<Named<TestHistory>>,
) -> spec_fn(int) -> Seq<Seq<char>> {
    |i: int|
        seq![
            "- `"@ + names[i] + "` (passed on retry)"@ + history_hint(names[i], history),
        ] + (if has_key(s, names[i]) {
            details_of(entry_of(s, names[i]).details)
        } else {
            Seq::empty()
        })
}

/// The numbers at the head of a summary.
pub open spec fn count_lines(s: Seq<TestResult>, flaky: nat) -> Seq<Seq<char>> {
    seq![
        "## Test results"@,
        ""@,
        "| Total | Passed | Failed | Errored | Skipped | Flaky |"@,
        "|------:|-------:|-------:|--------:|--------:|------:|"@,
        "| "@ + decimal(s.len()) + " | "@ + decimal(
            count_of(s, TestStatus::Success, TestStatus::Success),
        ) + " | "@ + decimal(count_of(s, TestStatus::Failure, TestStatus::UnexpectedSuccess))
            + " | "@ + decimal(count_of(s, TestStatus::Error, TestStatus::Error)) + " | "@
            + decimal(count_of(s, TestStatus::Skip, TestStatus::ExpectedFailure)) + " | "@
            + decimal(flaky) + " |"@,
        ""@,
    ]
}

/// The failures of a summary.
pub open spec fn failing_lines(
    s: Seq<TestResult>,
    flaky: Seq<TestId>,
    history: Seq<Named<TestHistory>>,
) -> Seq<Seq<char>> {
    if hard_count(s, flaky) == 0 {
        Seq::empty()
    } else {
        seq![
            ""@,
            "<details><summary>Failing tests ("@ + decimal(hard_count(s, flaky))
                + ")</summary>"@,
            ""@,
        ] + gathered(failing_part(s, flaky, history), s.len()) + seq![""@, "</details>"@]
    }
}

/// The tests of a summary that passed when they were run again.
pub open spec fn flaky_lines(
    s: Seq<TestResult>,
    flaky: Seq<TestId>,
    history: Seq<Named<TestHistory>>,
) -> Seq<Seq<char>> {
    if flaky.len() == 0 {
        Seq::empty()
    } else {
        seq![
            ""@,
            "<details><summary>Flaky tests ("@ + decimal(flaky.len()) + ")</summary>"@,
            ""@,
        ] + gathered(flaky_part(s, sorted_names(flaky), history), flaky.len()) + seq![
            ""@,
            "</details>"@,
        ]
    }
}

/// Whether `lines` is the summary of a run.
pub open spec fn is_summary(
    lines: Seq<Seq<char>>,
    run: TestRun,
    flaky: Seq<TestId>,
    history: Seq<Named<TestHistory>>,
    nanos: nat,
    baseline: Option<nat>,
) -> bool {
    let s = run.results@;
    exists|slow: Seq<Seq<char>>| #[trigger]
        is_slowest_list(slow, s) && lines == count_lines(s, flaky.len()) + seq![
            runtime_text(run, nanos, baseline),
        ] + slow + failing_lines(s, flaky, history) + flaky_lines(s, flaky, history)
}

/// The numbers at the head of a summary.
fn render_counts(v: &Vec<TestResult>, flaky: usize) -> (r: Vec<String>)
    ensures
        texts(r@) == count_lines(v@, flaky as nat),
{
    let passed: usize = count_statuses(v, TestStatus::Success, TestStatus::Success);
    let failed: usize = count_statuses(v, TestStatus::Failure, TestStatus::UnexpectedSuccess);
    let errored: usize = count_statuses(v, TestStatus::Error, TestStatus::Error);
    let skipped: usize = count_statuses(v, TestStatus::Skip, TestStatus::ExpectedFailure);
    let mut r: Vec<String> = Vec::new();
    r.push("## Test results".to_owned());
    r.push("".to_owned());
    r.push("| Total | Passed | Failed | Errored | Skipped | Flaky |".to_owned());
    r.push("|------:|-------:|-------:|--------:|--------:|------:|".to_owned());
    let mut row: String = cat5(
        "| ",
        count_text(v.len()).as_str(),
        " | ",
        count_text(passed).as_str(),
        " | ",
    );
    row.append(count_text(failed).as_str());
    row.append(" | ");
    row.append(count_text(errored).as_str());
    row.append(" | ");
    row.append(count_text(skipped).as_str());
    row.append(" | ");
    row.append(count_text(flaky).as_str());
    row.append(" |");
    r.push(row);
    r.push("".to_owned());
    assert(texts(r@) =~= count_lines(v@, flaky as nat));
    r
}

/// The failures of a summary.
fn render_failing(v: &Vec<TestResult>, flaky: &Vec<TestId>, history: &TextMap<TestHistory>) -> (r:
    Vec<String>)
    ensures
        texts(r@) == failing_lines(v@, flaky@, history@),
{
    let mut count: usize = 0;
    let mut body: Vec<String> = Vec::new();
    for i in 0..v.len()
        invariant
            count == hard_count(v@.take(i as int), flaky@),
            count <= i,
            texts(body@) =~= gathered(failing_part(v@, flaky@, history@), i as nat),
    {
        assert(v@.take(i + 1).drop_last() =~= v@.take(i as int));
        let t: &TestResult = &v[i];
        if t.status.is_failure() && !is_among(flaky, t.test_id.as_str()) {
            count += 1;
            let message: String = first_line(&t.message, t.status.text());
            let mut line: String = cat4("- `", t.test_id.as_str(), "` — ", message.as_str());
            line.append(format_history_hint(t.test_id.as_str(), history).as_str());
            body.push(line);
            append_texts(&mut body, render_details(&t.details));
        }
    }
    assert(v@.take(v@.len() as int) =~= v@);
    let mut r: Vec<String> = Vec::new();
    if count > 0 {
        r.push("".to_owned());
        r.push(
            cat3(
                "<details><summary>Failing tests (",
                count_text(count).as_str(),
                ")</summary>",
            ),
        );
        r.push("".to_owned());
        append_texts(&mut r, body);
        r.push("".to_owned());
        r.push("</details>".to_owned());
    }
    assert(texts(r@) =~= failing_lines(v@, flaky@, history@));
    r
}

/// The tests of a summary that passed when they were run again.
fn render_flaky(run: &TestRun, flaky: &Vec<TestId>, history: &TextMap<TestHistory>) -> (r: Vec<
    String,
>)
    ensures
        texts(r@) == flaky_lines(run.results@, flaky@, history@),
{
    let mut r: Vec<String> = Vec::new();
    if flaky.len() > 0 {
        let names: Vec<String> = sort_names(flaky);
        let ghost all = sorted_names(flaky@);
        proof {
            crate::sort::sorted_texts_ascend(test_names(flaky@));
            assert(texts(names@).len() == names@.len());
        }
        r.push("".to_owned());
        r.push(
            cat3(
                "<details><summary>Flaky tests (",
                count_text(flaky.len()).as_str(),
                ")</summary>",
            ),
        );
        r.push("".to_owned());
        let ghost head = texts(r@);
        for i in 0..names.len()
            invariant
                all == texts(names@),
                texts(r@) =~= head + gathered(
                    flaky_part(run.results@, all, history@),
                    i as nat,
                ),
        {
            assert(all[i as int] == names@[i as int]@);
            let hint: String = format_history_hint(names[i].as_str(), history);
            r.push(cat4("- `", names[i].as_str(), "` (passed on retry)", hint.as_str()));
            if let Some(t) = run.results.find(names[i].as_str()) {
                append_texts(&mut r, render_details(&t.details));
            }
        }
        r.push("".to_owned());
        r.push("</details>".to_owned());
    }
    assert(texts(r@) =~= flaky_lines(run.results@, flaky@, history@));
    r
}

/// The summary of a run in Markdown: the numbers, how long it took, the slowest tests, the
/// failures, and the tests that passed when they were run again.
pub fn format_step_summary(
    run: &TestRun,
    flaky: &Vec<TestId>,
    history: &TextMap<TestHistory>,
    duration: Duration,
    baseline_duration: Option<Duration>,
) -> (s: String)
    requires
        nanos_sum(run.results@) <= MAX_NANOS,
    ensures
        exists|lines: Seq<Seq<char>>| #[trigger]
            is_summary(
                lines,
                *run,
                flaky@,
                history@,
                duration@,
                span_nanos(baseline_duration),
            ) && s@ == terminated(lines, "\n"@),
{
    let v: &Vec<TestResult> = run.results.entries();
    let mut out: Vec<String> = render_counts(v, flaky.len());
    out.push(format_runtime_line(run, duration, baseline_duration));
    let slow: Vec<String> = render_slowest(run);
    let ghost slow_lines = texts(slow@);
    append_texts(&mut out, slow);
    append_texts(&mut out, render_failing(v, flaky, history));
    append_texts(&mut out, render_flaky(run, flaky, history));
    proof {
        let s = run.results@;
        assert(texts(out@) =~= count_lines(s, flaky@.len()) + seq![
            runtime_text(*run, duration@, span_nanos(baseline_duration)),
        ] + slow_lines + failing_lines(s, flaky@, history@) + flaky_lines(s, flaky@, history@));
        assert(is_slowest_list(slow_lines, s));
        assert(is_summary(
            texts(out@),
            *run,
            flaky@,
            history@,
            duration@,
            span_nanos(baseline_duration),
        ));
    }
    join_terminated(&out, "\n")
}

/// `a` less `b`, at least zero.
pub open spec fn less(a: nat, b: nat) -> nat {
    if a > b {
        (a - b) as nat
    } else {
        0
    }
}

/// The values of a run for further steps.
pub open spec fn step_outputs(s: Seq<TestResult>, flaky: nat, run_id: Seq<char>, nanos: nat) -> Seq<
    char,
> {
    "passed="@ + decimal(count_of(s, TestStatus::Success, TestStatus::Success)) + "\nfailed="@
        + decimal(less(crate::repository::failure_count(s), flaky)) + "\nflaky="@ + decimal(flaky)
        + "\nduration="@ + seconds_text(nanos, 3) + "\nrun_id="@ + run_id + "\n"@
}

/// The values of a run for further steps. A test that passed when it was run again does not count
/// as failed.
pub fn format_step_outputs(
    run: &TestRun,
    flaky: &Vec<TestId>,
    run_id: &RunId,
    duration: Duration,
) -> (s: String)
    ensures
        s@ == step_outputs(run.results@, flaky@.len(), run_id@, duration@),
{
    let v: &Vec<TestResult> = run.results.entries();
    let passed: usize = count_statuses(v, TestStatus::Success, TestStatus::Success);
    let failed: usize = run.count_failures();
    let hard: usize = if failed > flaky.len() {
        failed - flaky.len()
    } else {
        0
    };
    let mut s: String = cat4(
        "passed=",
        count_text(passed).as_str(),
        "\nfailed=",
        count_text(hard).as_str(),
    );
    s.append("\nflaky=");
    s.append(count_text(flaky.len()).as_str());
    s.append("\nduration=");
    s.append(seconds_with_millis(duration).as_str());
    s.append("\nrun_id=");
    s.append(run_id.as_str());
    s.append("\n");
    s
}

} // verus!
