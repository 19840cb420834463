//! Results in formats that other programs read.

use vstd::prelude::*;
use vstd::string::*;

use crate::commands::Command;
use crate::commands::summarize::compiled;
use crate::config::layer::optional_text;
use crate::error::{Error, Failure, Result};
use crate::gather::gathered;
use crate::junit::{add_case, case_entry, is_moment, junit_xml, new_suite, render_report, set_suite_time, set_suite_timestamp, suite_cases, suite_title, xml_text, CaseEntry, JunitCase, JunitStatus, SuiteTitle};
use crate::pattern::{match_texts, optional_texts, regex_captures, regex_error, Match, MatchTexts};
use crate::repository::{any_timed, copy_text, is_failure, nanos_sum, status_text, RunId, TestResult, TestRun, TestStatus};
use crate::store::{asked_run, open_run, run_of, Store};
use crate::text::compose::{cat2, cat3, cat4, chars, join, joined, slice, texts};
use crate::text::number::{count_text, decimal, decimal_text, parse_u32, parsed_nat};
use crate::text::order::text_eq;
use crate::text::scan::{has_prefix, has_suffix, last_occurrence, lines, lines_of, lowercase, occurs_at, occurs_in, rfind, trim, trimmed, unicode_lowered};
use crate::time::{Duration, MAX_NANOS};
use crate::ui::{Line, Transcript};

verus! {

broadcast use crate::text::compose::texts_push;

/// A format for results.
#[derive(Clone, Copy, Debug, PartialEq, Eq, Structural)]
pub enum ExportFormat {
    /// JSON.
    Json,
    /// The XML of JUnit.
    Junit,
    /// The Test Anything Protocol.
    Tap,
    /// The workflow commands of GitHub.
    Github,
}

/// The format that a name stands for.
pub open spec fn named_format(s: Seq<char>) -> Option<ExportFormat> {
    let t = unicode_lowered(s);
    if t == "json"@ {
        Some(ExportFormat::Json)
    } else if t == "junit"@ {
        Some(ExportFormat::Junit)
    } else if t == "tap"@ {
        Some(ExportFormat::Tap)
    } else if t == "github"@ || t == "gitlab"@ {
        Some(ExportFormat::Github)
    } else {
        None
    }
}

impl ExportFormat {
    /// The format that a name stands for, in upper or lower case.
    pub fn parse(s: &str) -> (r: core::result::Result<ExportFormat, String>)
        ensures
            match named_format(s@) {
                Some(f) => r == Ok::<ExportFormat, String>(f),
                None => r matches Err(m) && m@ == "unknown format '"@ + s@
                    + "', expected one of: json, junit, tap, github"@,
            },
    {
        let t: String = lowercase(s);
        if text_eq(t.as_str(), "json") {
            Ok(ExportFormat::Json)
        } else if text_eq(t.as_str(), "junit") {
            Ok(ExportFormat::Junit)
        } else if text_eq(t.as_str(), "tap") {
            Ok(ExportFormat::Tap)
        } else if text_eq(t.as_str(), "github") || text_eq(t.as_str(), "gitlab") {
            Ok(ExportFormat::Github)
        } else {
            Err(cat3("unknown format '", s, "', expected one of: json, junit, tap, github"))
        }
    }
}

impl core::str::FromStr for ExportFormat {
    type Err = String;

    fn from_str(s: &str) -> core::result::Result<Self, String> {
        ExportFormat::parse(s)
    }
}

/// A place in a source file.
#[derive(Debug)]
pub struct SourceLocation {
    /// The file.
    pub file: String,
    /// The line.
    pub line: u32,
    /// The column.
    pub col: Option<u32>,
}

/// A place in a source file, as plain values.
pub struct Location {
    /// The file.
    pub file: Seq<char>,
    /// The line.
    pub line: nat,
    /// The column.
    pub col: Option<nat>,
}

impl View for SourceLocation {
    type V = Location;

    open spec fn view(&self) -> Location {
        Location {
            file: self.file@,
            line: self.line as nat,
            col: match self.col {
                Some(c) => Some(c as nat),
                None => None,
            },
        }
    }
}

/// The patterns of places in source files: those of Python, of Rust and other compilers, and any
/// file with a line number. The groups are the file, the line and the column.
pub open spec fn location_pattern(k: int) -> Seq<char> {
    if k == 0 {
        r#"File "(?P<file>[^"]+)", line (?P<line>\d+)"#@
    } else if k == 1 {
        r#"(?P<file>[^\s:()'"<>]+\.[A-Za-z0-9]+):(?P<line>\d+):(?P<col>\d+)"#@
    } else {
        r#"(?P<file>[^\s:()'"<>]+\.[A-Za-z0-9]+):(?P<line>\d+)\b"#@
    }
}

/// A number that fits in 32 bits.
pub open spec fn small_number(s: Seq<char>) -> Option<nat> {
    match parsed_nat(s) {
        Some(n) => if n <= u32::MAX {
            Some(n)
        } else {
            None
        },
        None => None,
    }
}

/// The place that the groups of a match name.
pub open spec fn place_of(groups: Seq<Option<Seq<char>>>) -> Option<Location> {
    if groups.len() > 2 && groups[1] is Some && groups[2] is Some && small_number(groups[2]->0)
        is Some {
        Some(
            Location {
                file: groups[1]->0,
                line: small_number(groups[2]->0)->0,
                col: if groups.len() > 3 && groups[3] is Some {
                    small_number(groups[3]->0)
                } else {
                    None
                },
            },
        )
    } else {
        None
    }
}

/// The match that ends last, the first one of several that end at one point.
pub open spec fn last_match(found: Seq<MatchTexts>) -> Option<MatchTexts>
    decreases found.len(),
{
    if found.len() == 0 {
        None
    } else {
        match last_match(found.drop_last()) {
            Some(m) => if found.last().end > m.end {
                Some(found.last())
            } else {
                Some(m)
            },
            None => Some(found.last()),
        }
    }
}

/// The matches of a pattern; none where it does not compile.
pub open spec fn found_by(k: int, details: Seq<char>) -> Seq<MatchTexts> {
    if regex_error(location_pattern(k)) is None {
        regex_captures(location_pattern(k), details)
    } else {
        Seq::empty()
    }
}

/// The matches of the first `n` patterns.
pub open spec fn found_by_first(n: nat, details: Seq<char>) -> Seq<MatchTexts>
    decreases n,
{
    if n == 0 {
        Seq::empty()
    } else {
        found_by_first((n - 1) as nat, details) + found_by(n - 1, details)
    }
}

/// The place that a traceback names: that of the match of any of the patterns that ends last.
pub open spec fn source_location(details: Seq<char>) -> Option<Location> {
    match last_match(found_by_first(3, details)) {
        Some(m) => place_of(m.groups),
        None => None,
    }
}

/// The pattern of places.
fn location_pattern_text(k: usize) -> (r: &'static str)
    requires
        k < 3,
    ensures
        r@ == location_pattern(k as int),
{
    match k {
        0 => r#"File "(?P<file>[^"]+)", line (?P<line>\d+)"#,
        1 => r#"(?P<file>[^\s:()'"<>]+\.[A-Za-z0-9]+):(?P<line>\d+):(?P<col>\d+)"#,
        _ => r#"(?P<file>[^\s:()'"<>]+\.[A-Za-z0-9]+):(?P<line>\d+)\b"#,
    }
}

/// The place that the groups of a match name.
fn place_in(groups: &Vec<Option<String>>) -> (r: Option<SourceLocation>)
    ensures
        match place_of(optional_texts(groups@)) {
            Some(p) => r matches Some(l) && l@ == p,
            None => r is None,
        },
{
    let ghost g = optional_texts(groups@);
    if groups.len() < 3 {
        return None;
    }
    assert(g[1] == optional_text(groups@[1]) && g[2] == optional_text(groups@[2]));
    let file: String = match &groups[1] {
        Some(s) => s.clone(),
        None => {
            return None;
        },
    };
    let line: u32 = match &groups[2] {
        Some(s) => match parse_u32(s.as_str()) {
            Some(n) => n,
            None => {
                return None;
            },
        },
        None => {
            return None;
        },
    };
    let mut col: Option<u32> = None;
    if groups.len() > 3 {
        assert(g[3] == optional_text(groups@[3]));
        if let Some(s) = &groups[3] {
            col = parse_u32(s.as_str());
        }
    }
    Some(SourceLocation { file, line, col })
}

/// The matches of a pattern.
fn find_places(k: usize, details: &str) -> (r: Vec<Match>)
    requires
        k < 3,
    ensures
        match_texts(r@) == found_by(k as int, details@),
{
    match compiled(location_pattern_text(k)) {
        Some(re) => re.captures(details),
        None => {
            let none: Vec<Match> = Vec::new();
            assert(match_texts(none@) =~= Seq::<MatchTexts>::empty());
            none
        },
    }
}

/// The match that ends last.
fn pick_last(found: &Vec<Match>) -> (r: Option<&Match>)
    ensures
        match last_match(match_texts(found@)) {
            Some(m) => r matches Some(b) && b@ == m,
            None => r is None,
        },
{
    let ghost all = match_texts(found@);
    let mut best: Option<&Match> = None;
    for i in 0..found.len()
        invariant
            all == match_texts(found@),
            match last_match(all.take(i as int)) {
                Some(m) => best matches Some(b) && b@ == m,
                None => best is None,
            },
    {
        assert(all.take(i + 1).drop_last() =~= all.take(i as int));
        assert(all[i as int] == found@[i as int]@);
        best = match best {
            Some(b) => if found[i].end > b.end {
                Some(&found[i])
            } else {
                Some(b)
            },
            None => Some(&found[i]),
        };
    }
    assert(all.take(found@.len() as int) =~= all);
    best
}

/// The place in a source file that a traceback names: the last one, which is nearest to the
/// failure.
pub fn extract_source_location(details: &str) -> (r: Option<SourceLocation>)
    ensures
        match source_location(details@) {
            Some(p) => r matches Some(l) && l@ == p,
            None => r is None,
        },
{
    let mut found: Vec<Match> = Vec::new();
    assert(match_texts(found@) =~= found_by_first(0, details@));
    for k in 0..3usize
        invariant
            match_texts(found@) == found_by_first(k as nat, details@),
    {
        let ghost before = found@;
        let mut more: Vec<Match> = find_places(k, details);
        let ghost added = more@;
        found.append(&mut more);
        assert(match_texts(found@) =~= match_texts(before) + match_texts(added));
    }
    match pick_last(&found) {
        Some(m) => place_in(&m.groups),
        None => None,
    }
}

/// What stands for a character in the message of a workflow command.
pub open spec fn data_code(c: char) -> Seq<char> {
    if c == '%' {
        "%25"@
    } else if c == '\r' {
        "%0D"@
    } else if c == '\n' {
        "%0A"@
    } else {
        seq![c]
    }
}

/// What stands for a character in a parameter of a workflow command.
pub open spec fn param_code(c: char) -> Seq<char> {
    if c == ':' {
        "%3A"@
    } else if c == ',' {
        "%2C"@
    } else {
        data_code(c)
    }
}

/// What stands for the character at a position of a parameter.
pub open spec fn param_part(s: Seq<char>) -> spec_fn(int) -> Seq<char> {
    |i: int| param_code(s[i])
}

/// What stands for the character at a position of a message.
pub open spec fn data_part(s: Seq<char>) -> spec_fn(int) -> Seq<char> {
    |i: int| data_code(s[i])
}

/// A text as a parameter of a workflow command.
pub open spec fn escaped_param(s: Seq<char>) -> Seq<char> {
    gathered(param_part(s), s.len())
}

/// A text as the message of a workflow command.
pub open spec fn escaped_data(s: Seq<char>) -> Seq<char> {
    gathered(data_part(s), s.len())
}

/// A text as a parameter of a workflow command: `%`, carriage returns, line feeds, `:` and `,` are
/// encoded.
pub fn escape_param(s: &str) -> (r: String)
    ensures
        r@ == escaped_param(s@),
{
    let v: Vec<char> = chars(s);
    let mut out = String::new();
    for i in 0..v.len()
        invariant
            out@ =~= gathered(param_part(v@), i as nat),
    {
        match v[i] {
            '%' => out.append("%25"),
            '\r' => out.append("%0D"),
            '\n' => out.append("%0A"),
            ':' => out.append("%3A"),
            ',' => out.append("%2C"),
            c => out.push(c),
        }
    }
    out
}

/// A text as the message of a workflow command: `%`, carriage returns and line feeds are encoded.
pub fn escape_data(s: &str) -> (r: String)
    ensures
        r@ == escaped_data(s@),
{
    let v: Vec<char> = chars(s);
    let mut out = String::new();
    for i in 0..v.len()
        invariant
            out@ =~= gathered(data_part(v@), i as nat),
    {
        match v[i] {
            '%' => out.append("%25"),
            '\r' => out.append("%0D"),
            '\n' => out.append("%0A"),
            c => out.push(c),
        }
    }
    out
}

/// An encoded parameter holds none of the characters that end it or separate it from others.
pub proof fn escaped_param_is_closed(s: Seq<char>)
    ensures
        forall|i: int|
            0 <= i < escaped_param(s).len() ==> {
                let c = #[trigger] escaped_param(s)[i];
                c != ':' && c != ',' && c != '\r' && c != '\n'
            },
{
    reveal_strlit("%25");
    reveal_strlit("%0D");
    reveal_strlit("%0A");
    reveal_strlit("%3A");
    reveal_strlit("%2C");
    assert forall|i: int| 0 <= i < escaped_param(s).len() implies {
        let c = #[trigger] escaped_param(s)[i];
        c != ':' && c != ',' && c != '\r' && c != '\n'
    } by {
        let (a, b) = crate::gather::gathered_element(param_part(s), s.len(), i);
        assert(param_part(s)(a) == param_code(s[a]));
    }
}

/// The first line of a message, else something else.
pub open spec fn headline(message: Option<Seq<char>>, other: Seq<char>) -> Seq<char> {
    if message is Some && trimmed(message->0).len() > 0 {
        lines_of(trimmed(message->0))[0]
    } else {
        other
    }
}

/// A text that is not empty has a line.
pub proof fn lines_nonempty(s: Seq<char>)
    requires
        s.len() > 0,
    ensures
        lines_of(s).len() > 0,
{
}

/// The first line of a message, else something else.
pub(crate) fn first_line(message: &Option<String>, other: &str) -> (r: String)
    ensures
        r@ == headline(optional_text(*message), other@),
{
    if let Some(m) = message {
        let t: String = trim(m.as_str());
        if !t.as_str().is_empty() {
            let list: Vec<String> = lines(t.as_str());
            proof {
                lines_nonempty(t@);
                assert(texts(list@)[0] == list@[0]@);
                assert(texts(list@).len() == list@.len());
            }
            return list[0].clone();
        }
    }
    other.to_owned()
}

/// The parameters of a workflow command.
pub open spec fn annotation_params(place: Option<Location>, title: Seq<char>) -> Seq<Seq<char>> {
    (match place {
        Some(p) => seq!["file="@ + escaped_param(p.file), "line="@ + decimal(p.line)] + (
        match p.col {
            Some(c) => seq!["col="@ + decimal(c)],
            None => Seq::empty(),
        }),
        None => Seq::empty(),
    }).push("title="@ + title)
}

/// The place that the details of a result name.
pub open spec fn place_of_result(details: Option<String>) -> Option<Location> {
    match details {
        Some(d) => source_location(d@),
        None => None,
    }
}

/// A workflow command.
pub open spec fn annotation(
    level: Seq<char>,
    place: Option<Location>,
    title: Seq<char>,
    message: Seq<char>,
) -> Seq<char> {
    "::"@ + level + " "@ + joined(annotation_params(place, title), ","@) + "::"@ + escaped_data(
        message,
    ) + "\n"@
}

/// The workflow command for a result; nothing for one that is no failure.
pub open spec fn error_annotation(r: TestResult) -> Seq<char> {
    if is_failure(r.status) {
        annotation(
            "error"@,
            place_of_result(r.details),
            escaped_param(r.test_id@),
            headline(optional_text(r.message), status_text(r.status)),
        )
    } else {
        Seq::empty()
    }
}

/// A workflow command.
pub(crate) fn format_annotation(
    level: &str,
    details: &Option<String>,
    title: &str,
    message: &str,
) -> (s: String)
    ensures
        s@ == annotation(level@, place_of_result(*details), title@, message@),
{
    let place: Option<SourceLocation> = match details {
        Some(d) => extract_source_location(d.as_str()),
        None => None,
    };
    let mut params: Vec<String> = Vec::new();
    if let Some(l) = &place {
        params.push(cat2("file=", escape_param(l.file.as_str()).as_str()));
        params.push(cat2("line=", decimal_text(l.line as u128).as_str()));
        if let Some(c) = l.col {
            params.push(cat2("col=", decimal_text(c as u128).as_str()));
        }
    }
    params.push(cat2("title=", title));
    assert(texts(params@) =~= annotation_params(place_of_result(*details), title@));
    let mut s: String = cat4("::", level, " ", join(&params, ",").as_str());
    s.append("::");
    s.append(escape_data(message).as_str());
    s.append("\n");
    s
}

/// The workflow command for a result.
pub fn format_error_annotation(result: &TestResult) -> (s: String)
    ensures
        s@ == error_annotation(*result),
{
    if !result.status.is_failure() {
        return String::new();
    }
    let message: String = first_line(&result.message, result.status.text());
    let title: String = escape_param(result.test_id.as_str());
    format_annotation("error", &result.details, title.as_str(), message.as_str())
}

/// The workflow command for the result at a position.
pub open spec fn github_part(s: Seq<TestResult>) -> spec_fn(int) -> Seq<char> {
    |i: int| error_annotation(s[i])
}

/// The workflow commands for the failures of a run, in the order of the tests' names.
pub fn export_github(run: &TestRun) -> (s: String)
    ensures
        s@ == gathered(github_part(run.results@), run.results@.len()),
{
    let v: &Vec<TestResult> = run.results.entries();
    let mut out = String::new();
    for i in 0..v.len()
        invariant
            v@ == run.results@,
            out@ =~= gathered(github_part(v@), i as nat),
    {
        out.append(format_error_annotation(&v[i]).as_str());
    }
    out
}

/// A line of details.
pub open spec fn tap_detail_part(list: Seq<Seq<char>>) -> spec_fn(int) -> Seq<char> {
    |i: int| "    "@ + list[i] + "\n"@
}

/// What is said of a failure.
pub open spec fn tap_failure(r: TestResult) -> Seq<char> {
    if r.message is None && r.details is None {
        Seq::empty()
    } else {
        "  ---\n"@ + (match r.message {
            Some(m) => "  message: "@ + m@ + "\n"@,
            None => Seq::empty(),
        }) + "  severity: "@ + status_text(r.status) + "\n"@ + (match r.details {
            Some(d) => "  data: |\n"@ + gathered(
                tap_detail_part(lines_of(d@)),
                lines_of(d@).len(),
            ),
            None => Seq::empty(),
        }) + "  ...\n"@
    }
}

/// What is said of the result number `num`.
pub open spec fn tap_entry(r: TestResult, num: nat) -> Seq<char> {
    if r.status == TestStatus::Success {
        "ok "@ + decimal(num) + " "@ + r.test_id@ + "\n"@
    } else if is_failure(r.status) {
        "not ok "@ + decimal(num) + " "@ + r.test_id@ + "\n"@ + tap_failure(r)
    } else if r.message is None || r.message->0@.len() == 0 {
        "ok "@ + decimal(num) + " "@ + r.test_id@ + " # SKIP\n"@
    } else {
        "ok "@ + decimal(num) + " "@ + r.test_id@ + " # SKIP "@ + r.message->0@ + "\n"@
    }
}

/// What is said of the result at a position.
pub open spec fn tap_part(s: Seq<TestResult>) -> spec_fn(int) -> Seq<char> {
    |i: int| tap_entry(s[i], (i + 1) as nat)
}

/// The results of a run in the Test Anything Protocol.
pub open spec fn tap_text(s: Seq<TestResult>) -> Seq<char> {
    "TAP version 13\n1.."@ + decimal(s.len()) + "\n"@ + gathered(tap_part(s), s.len())
}

/// What is said of a result.
#[verifier::spinoff_prover]
#[verifier::rlimit(60)]
fn format_tap_entry(r: &TestResult, num: usize) -> (s: String)
    ensures
        s@ == tap_entry(*r, num as nat),
{
    let n: String = count_text(num);
    match r.status {
        TestStatus::Success => {
            let mut s: String = cat4("ok ", n.as_str(), " ", r.test_id.as_str());
            s.append("\n");
            s
        },
        TestStatus::Skip | TestStatus::ExpectedFailure => {
            let mut s: String = cat4("ok ", n.as_str(), " ", r.test_id.as_str());
            match &r.message {
                Some(m) => if m.as_str().is_empty() {
                    s.append(" # SKIP\n");
                } else {
                    s.append(" # SKIP ");
                    s.append(m.as_str());
                    s.append("\n");
                },
                None => s.append(" # SKIP\n"),
            }
            s
        },
        _ => {
            let mut s: String = cat4("not ok ", n.as_str(), " ", r.test_id.as_str());
            s.append("\n");
            let ghost head = s@;
            if r.message.is_some() || r.details.is_some() {
                s.append("  ---\n");
                if let Some(m) = &r.message {
                    s.append("  message: ");
                    s.append(m.as_str());
                    s.append("\n");
                }
                s.append("  severity: ");
                s.append(r.status.text());
                s.append("\n");
                if let Some(d) = &r.details {
                    s.append("  data: |\n");
                    let list: Vec<String> = lines(d.as_str());
                    let ghost all = texts(list@);
                    let ghost before = s@;
                    for i in 0..list.len()
                        invariant
                            all == texts(list@),
                            s@ =~= before + gathered(tap_detail_part(all), i as nat),
                    {
                        s.append("    ");
                        s.append(list[i].as_str());
                        s.append("\n");
                    }
                }
                s.append("  ...\n");
            }
            assert(s@ =~= head + tap_failure(*r));
            s
        },
    }
}

/// The results of a run in the Test Anything Protocol, in the order of the tests' names.
pub fn export_tap(run: &TestRun) -> (s: String)
    ensures
        s@ == tap_text(run.results@),
{
    let v: &Vec<TestResult> = run.results.entries();
    let mut s: String = cat3("TAP version 13\n1..", count_text(v.len()).as_str(), "\n");
    let ghost head = s@;
    for i in 0..v.len()
        invariant
            v@ == run.results@,
            s@ =~= head + gathered(tap_part(v@), i as nat),
    {
        s.append(format_tap_entry(&v[i], i + 1).as_str());
    }
    s
}

/// The name of a test without what it is part of, and what it is part of: split at the last `::`,
/// else at the last point.
pub open spec fn split_name(id: Seq<char>) -> (Option<Seq<char>>, Seq<char>) {
    let i = last_occurrence(id, "::"@, id.len() as int);
    let j = last_occurrence(id, "."@, id.len() as int);
    let (class, name) = if i >= 0 {
        (id.take(i), id.skip(i + 2))
    } else if j >= 0 {
        (id.take(j), id.skip(j + 1))
    } else {
        (Seq::empty(), id)
    };
    (
        if class.len() == 0 {
            None
        } else {
            Some(class)
        },
        name,
    )
}

/// How a test ended, in the terms of JUnit.
pub open spec fn junit_status(s: TestStatus) -> JunitStatus {
    match s {
        TestStatus::Success => JunitStatus::Success,
        TestStatus::Failure | TestStatus::UnexpectedSuccess => JunitStatus::Failure,
        TestStatus::Error => JunitStatus::Error,
        TestStatus::Skip | TestStatus::ExpectedFailure => JunitStatus::Skipped,
    }
}

/// Seconds and nanoseconds of a span.
pub open spec fn span_parts(d: Option<Duration>) -> Option<(u64, u32)> {
    match d {
        Some(d) => Some(((d@ / 1_000_000_000) as u64, (d@ % 1_000_000_000) as u32)),
        None => None,
    }
}

/// What is kept of an optional text.
pub open spec fn xml_view(s: Option<Seq<char>>) -> Option<Seq<char>> {
    match s {
        Some(t) => Some(xml_text(t)),
        None => None,
    }
}

/// A result in a report.
pub open spec fn junit_entry(r: TestResult) -> CaseEntry {
    let status = junit_status(r.status);
    CaseEntry {
        name: xml_text(split_name(r.test_id@).1),
        classname: xml_view(split_name(r.test_id@).0),
        status,
        message: if status == JunitStatus::Success {
            None
        } else {
            xml_view(optional_text(r.message))
        },
        description: if is_failure(r.status) {
            xml_view(optional_text(r.details))
        } else {
            None
        },
        time: span_parts(r.duration),
    }
}

/// The results in a report.
pub open spec fn junit_entries(s: Seq<TestResult>) -> Seq<CaseEntry> {
    Seq::new(s.len(), |i: int| junit_entry(s[i]))
}

/// What a report of a run is headed by.
pub open spec fn junit_title(run: TestRun) -> SuiteTitle {
    let at = run.timestamp;
    let total = nanos_sum(run.results@);
    SuiteTitle {
        name: xml_text("run-"@ + run.id@),
        timestamp: if is_moment(at.seconds, at.nanos) {
            Some((at.seconds, at.nanos))
        } else {
            None
        },
        time: if any_timed(run.results@) {
            Some(((total / 1_000_000_000) as u64, (total % 1_000_000_000) as u32))
        } else {
            None
        },
    }
}

/// The name of a test without what it is part of, and what it is part of.
fn split_test_name(id: &str) -> (r: (Option<String>, String))
    ensures
        optional_text(r.0) == split_name(id@).0,
        r.1@ == split_name(id@).1,
{
    proof {
        reveal_strlit("::");
        reveal_strlit(".");
    }
    let v: Vec<char> = chars(id);
    let (at, width): (usize, usize) = match rfind(&v, "::") {
        Some(i) => (i, 2),
        None => match rfind(&v, ".") {
            Some(j) => (j, 1),
            None => (0, 0),
        },
    };
    if width == 0 {
        return (None, id.to_owned());
    }
    let n: usize = v.len();
    assert(at + width <= n);
    let class: String = slice(&v, 0, at);
    let name: String = slice(&v, at + width, n);
    proof {
        assert(class@ =~= id@.take(at as int));
        assert(name@ =~= id@.skip(at + width));
    }
    if class.as_str().is_empty() {
        (None, name)
    } else {
        (Some(class), name)
    }
}

/// A result in a report.
fn junit_case(r: &TestResult) -> (c: JunitCase)
    ensures
        case_entry(c) == junit_entry(*r),
        c.time matches Some(t) ==> t.1 < 1_000_000_000,
{
    let status: JunitStatus = match r.status {
        TestStatus::Success => JunitStatus::Success,
        TestStatus::Failure | TestStatus::UnexpectedSuccess => JunitStatus::Failure,
        TestStatus::Error => JunitStatus::Error,
        TestStatus::Skip | TestStatus::ExpectedFailure => JunitStatus::Skipped,
    };
    let (classname, name) = split_test_name(r.test_id.as_str());
    let description: Option<String> = if r.status.is_failure() {
        copy_text(&r.details)
    } else {
        None
    };
    let time: Option<(u64, u32)> = match r.duration {
        Some(d) => Some(d.parts()),
        None => None,
    };
    JunitCase { name, classname, status, message: copy_text(&r.message), description, time }
}

/// The results of a run as a report in the XML of JUnit, in the order of the tests' names.
pub fn export_junit(run: &TestRun) -> (r: Result<String>)
    requires
        nanos_sum(run.results@) <= MAX_NANOS,
    ensures
        match junit_xml(xml_text("inquest"@), junit_title(*run), junit_entries(run.results@)) {
            Ok(x) => r matches Ok(s) && s@ == x,
            Err(m) => r matches Err(e) && e@ == Failure::Other("JUnit serialization error: "@ + m),
        },
{
    let mut suite: quick_junit::TestSuite = new_suite(cat2("run-", run.id.as_str()).as_str());
    set_suite_timestamp(&mut suite, run.timestamp.seconds, run.timestamp.nanos);
    if let Some(d) = run.total_duration() {
        let (secs, nanos) = d.parts();
        set_suite_time(&mut suite, secs, nanos);
    }
    let v: &Vec<TestResult> = run.results.entries();
    let ghost title = suite_title(suite);
    let ghost all = junit_entries(run.results@);
    for i in 0..v.len()
        invariant
            v@ == run.results@,
            all == junit_entries(run.results@),
            suite_title(suite) == title,
            suite_cases(suite) =~= all.take(i as int),
    {
        let c: JunitCase = junit_case(&v[i]);
        add_case(&mut suite, &c);
    }
    proof {
        assert(suite_cases(suite) =~= all);
        assert(title == junit_title(*run));
    }
    match render_report("inquest", suite) {
        Ok(s) => Ok(s),
        Err(e) => Err(Error::Other(cat2("JUnit serialization error: ", e.as_str()))),
    }
}

/// Command that writes the results of a run in another format.
#[derive(Debug)]
pub struct ExportCommand {
    /// Where the repository is.
    pub base_path: Option<String>,
    /// The run; the latest one where none is named.
    pub run_id: Option<String>,
    /// The format.
    pub format: ExportFormat,
}

/// What is left to do.
#[derive(Debug)]
pub enum ExportStep {
    /// Nothing; the exit code.
    Done(i32),
    /// To write the results of a run as JSON.
    WriteJson(RunId),
}

impl ExportCommand {
    /// A command for a run and a format.
    pub fn new(base_path: Option<String>, run_id: Option<String>, format: ExportFormat) -> (r:
        Self)
        ensures
            r == (ExportCommand { base_path, run_id, format }),
    {
        ExportCommand { base_path, run_id, format }
    }

    /// Writes the results of the run that was asked for. Results in JSON are left to the caller.
    pub fn execute(&self, store: &Store, ui: &mut Transcript) -> (r: Result<ExportStep>)
        requires
            asked_run(store.runs@, self.run_id) matches Ok(id) ==> nanos_sum(
                run_of(store.runs@, id).run.results@,
            ) <= MAX_NANOS,
        ensures
            match asked_run(store.runs@, self.run_id) {
                Err(f) => r matches Err(e) && e@ == f && final(ui)@ == old(ui)@,
                Ok(id) => {
                    let run = run_of(store.runs@, id).run;
                    match self.format {
                        ExportFormat::Json => r matches Ok(ExportStep::WriteJson(x)) && x@ == id
                            && final(ui)@ == old(ui)@,
                        ExportFormat::Tap => r == Ok::<ExportStep, Error>(ExportStep::Done(0))
                            && final(ui)@ == old(ui)@.push(Line::Output(tap_text(run.results@))),
                        ExportFormat::Github => r == Ok::<ExportStep, Error>(ExportStep::Done(0))
                            && final(ui)@ == old(ui)@.push(
                            Line::Output(
                                gathered(github_part(run.results@), run.results@.len()),
                            ),
                        ),
                        ExportFormat::Junit => match junit_xml(
                            xml_text("inquest"@),
                            junit_title(run),
                            junit_entries(run.results@),
                        ) {
                            Ok(x) => r == Ok::<ExportStep, Error>(ExportStep::Done(0))
                                && final(ui)@ == old(ui)@.push(Line::Output(x)),
                            Err(m) => r matches Err(e) && e@ == Failure::Other(
                                "JUnit serialization error: "@ + m,
                            ) && final(ui)@ == old(ui)@,
                        },
                    }
                },
            },
    {
        let (run_id, run) = match open_run(store, &self.run_id) {
            Ok(v) => v,
            Err(e) => {
                return Err(e);
            },
        };
        let output: String = match self.format {
            ExportFormat::Json => {
                return Ok(ExportStep::WriteJson(run_id));
            },
            ExportFormat::Junit => match export_junit(run) {
                Ok(s) => s,
                Err(e) => {
                    return Err(e);
                },
            },
            ExportFormat::Tap => export_tap(run),
            ExportFormat::Github => export_github(run),
        };
        ui.output(output.as_str());
        Ok(ExportStep::Done(0))
    }
}

/// The results of a run are numbered from one in TAP, and a test is `not ok` exactly if it failed.
pub proof fn tap_entries_tell_failures(s: Seq<TestResult>, i: int)
    requires
        0 <= i < s.len(),
    ensures
        has_prefix(
            tap_part(s)(i),
            (if is_failure(s[i].status) {
                "not ok "@
            } else {
                "ok "@
            }) + decimal((i + 1) as nat) + " "@ + s[i].test_id@,
        ),
        has_prefix(tap_text(s), "TAP version 13\n1.."@ + decimal(s.len()) + "\n"@),
{
    let head = (if is_failure(s[i].status) {
        "not ok "@
    } else {
        "ok "@
    }) + decimal((i + 1) as nat) + " "@ + s[i].test_id@;
    assert(tap_part(s)(i).take(head.len() as int) =~= head);
    let plan = "TAP version 13\n1.."@ + decimal(s.len()) + "\n"@;
    assert(tap_text(s).take(plan.len() as int) =~= plan);
}

/// A test counts as failed or broken in a JUnit report exactly if it failed, and as passed exactly
/// if it passed. Details are given of failures only.
pub proof fn junit_entries_tell_failures(r: TestResult)
    ensures
        ({
            let e = junit_entry(r);
            &&& (e.status == JunitStatus::Failure || e.status == JunitStatus::Error) <==> is_failure(
                r.status,
            )
            &&& e.status == JunitStatus::Error <==> r.status == TestStatus::Error
            &&& e.status == JunitStatus::Success <==> r.status == TestStatus::Success
            &&& e.description is Some ==> is_failure(r.status)
            &&& is_failure(r.status) && r.details is Some ==> e.description is Some
            &&& e.message is Some <==> r.status != TestStatus::Success && r.message is Some
        }),
{
}

/// Workflow commands are given of failures only, one of each.
pub proof fn failures_are_annotated(r: TestResult)
    ensures
        error_annotation(r).len() > 0 <==> is_failure(r.status),
        is_failure(r.status) ==> has_prefix(error_annotation(r), "::error "@) && has_suffix(
            error_annotation(r),
            "::"@ + escaped_data(headline(optional_text(r.message), status_text(r.status))) + "\n"@,
        ),
{
    if is_failure(r.status) {
        reveal_strlit("::");
        reveal_strlit("error");
        reveal_strlit(" ");
        reveal_strlit("::error ");
        let a = error_annotation(r);
        assert("::error "@ =~= "::"@ + "error"@ + " "@);
        assert(a.take(8) =~= "::error "@);
        let tail = "::"@ + escaped_data(
            headline(optional_text(r.message), status_text(r.status)),
        ) + "\n"@;
        assert(a.skip(a.len() - tail.len()) =~= tail);
    }
}

/// A test's name is what it is part of, a separator and its own name, which holds that separator no
/// more. A name with `::` is split there, whatever points it holds.
pub proof fn names_are_split_at_the_last_separator(id: Seq<char>)
    ensures
        ({
            let (class, name) = split_name(id);
            &&& class matches Some(c) ==> c.len() > 0 && (id == c + "::"@ + name || id == c + "."@
                + name)
            &&& class is None ==> id == name || id == "::"@ + name || id == "."@ + name
            &&& occurs_in(id, "::"@) ==> !occurs_in(name, "::"@) && id == (match class {
                Some(c) => c,
                None => Seq::empty(),
            }) + "::"@ + name
            &&& !occurs_in(id, "::"@) ==> !occurs_in(name, "."@)
        }),
{
    reveal_strlit("::");
    reveal_strlit(".");
    let n = id.len() as int;
    let (class, name) = split_name(id);
    last_occurrence_is(id, "::"@, n);
    last_occurrence_is(id, "."@, n);
    let i = last_occurrence(id, "::"@, n);
    let j = last_occurrence(id, "."@, n);
    if i >= 0 {
        assert(occurs_at(id, "::"@, i));
        assert(id =~= id.take(i) + "::"@ + id.skip(i + 2)) by {
            assert(id.subrange(i, i + 2) =~= "::"@);
            assert(id[i] == id.subrange(i, i + 2)[0] && id[i + 1] == id.subrange(i, i + 2)[1]);
        }
        if i == 0 {
            assert(id.take(i) + "::"@ + id.skip(i + 2) =~= "::"@ + name);
            assert(Seq::<char>::empty() + "::"@ + name =~= "::"@ + name);
        }
        if occurs_in(name, "::"@) {
            let k = choose|k: int| #[trigger] occurs_at(name, "::"@, k);
            assert(id.subrange(i + 2 + k, i + 2 + k + 2) =~= name.subrange(k, k + 2));
            assert(occurs_at(id, "::"@, i + 2 + k));
        }
    } else {
        if occurs_in(id, "::"@) {
            let k = choose|k: int| #[trigger] occurs_at(id, "::"@, k);
            assert(occurs_at(id, "::"@, k));
        }
        if j >= 0 {
            assert(occurs_at(id, "."@, j));
            assert(id =~= id.take(j) + "."@ + id.skip(j + 1)) by {
                assert(id[j] == id.subrange(j, j + 1)[0]);
            }
            if j == 0 {
                assert(id.take(j) + "."@ + id.skip(j + 1) =~= "."@ + name);
            }
            if occurs_in(name, "."@) {
                let k = choose|k: int| #[trigger] occurs_at(name, "."@, k);
                assert(id.subrange(j + 1 + k, j + 1 + k + 1) =~= name.subrange(k, k + 1));
                assert(occurs_at(id, "."@, j + 1 + k));
            }
        } else if occurs_in(name, "."@) {
            let k = choose|k: int| #[trigger] occurs_at(name, "."@, k);
            assert(occurs_at(id, "."@, k));
        }
    }
}

/// The last place is one, and there is none behind it.
proof fn last_occurrence_is(s: Seq<char>, p: Seq<char>, n: int)
    requires
        0 <= n,
    ensures
        -1 <= last_occurrence(s, p, n) < n || n == 0,
        last_occurrence(s, p, n) >= 0 ==> occurs_at(s, p, last_occurrence(s, p, n)),
        last_occurrence(s, p, n) >= -1,
        forall|k: int|
            last_occurrence(s, p, n) < k < n ==> !#[trigger] occurs_at(s, p, k),
    decreases n,
{
    if n > 0 && !occurs_at(s, p, n - 1) {
        last_occurrence_is(s, p, n - 1);
    }
}

impl Command for ExportCommand {
    fn name(&self) -> (r: &str)
        ensures
            r@ == "export"@,
    {
        "export"
    }

    fn help(&self) -> (r: &str)
        ensures
            r@ == "Export test results in standard formats (json, junit, tap, github)"@,
    {
        "Export test results in standard formats (json, junit, tap, github)"
    }
}

} // verus!
