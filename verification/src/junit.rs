//! Reports in the XML format of JUnit.

use quick_junit::{NonSuccessKind, TestCase, TestCaseStatus, XmlString};
use vstd::prelude::*;

verus! {

/// A test suite of the `quick_junit` crate.
#[verifier::external_type_specification]
#[verifier::external_body]
pub struct ExTestSuite(quick_junit::TestSuite);

/// How a test ended, in the terms of JUnit.
#[derive(Clone, Copy, Debug, PartialEq, Eq, Structural)]
pub enum JunitStatus {
    /// It passed.
    Success,
    /// It failed.
    Failure,
    /// It broke.
    Error,
    /// It was not run.
    Skipped,
}

/// A test in a report.
#[derive(Debug)]
pub struct JunitCase {
    /// The name.
    pub name: String,
    /// What the name is part of.
    pub classname: Option<String>,
    /// How the test ended.
    pub status: JunitStatus,
    /// A short message.
    pub message: Option<String>,
    /// A long message.
    pub description: Option<String>,
    /// How long the test took: seconds and nanoseconds.
    pub time: Option<(u64, u32)>,
}

/// A test in a report, as character sequences.
pub struct CaseEntry {
    /// See [`JunitCase::name`].
    pub name: Seq<char>,
    /// See [`JunitCase::classname`].
    pub classname: Option<Seq<char>>,
    /// See [`JunitCase::status`].
    pub status: JunitStatus,
    /// See [`JunitCase::message`].
    pub message: Option<Seq<char>>,
    /// See [`JunitCase::description`].
    pub description: Option<Seq<char>>,
    /// See [`JunitCase::time`].
    pub time: Option<(u64, u32)>,
}

/// What a suite is headed by.
pub struct SuiteTitle {
    /// The name.
    pub name: Seq<char>,
    /// When it was run: seconds since the start of 1970 and nanoseconds.
    pub timestamp: Option<(i64, u32)>,
    /// How long it took: seconds and nanoseconds.
    pub time: Option<(u64, u32)>,
}

/// What `quick_junit::XmlString::new` keeps of a text.
pub uninterp spec fn xml_text(s: Seq<char>) -> Seq<char>;

/// Whether `chrono::DateTime::from_timestamp` takes the seconds and nanoseconds for a point in
/// time.
pub uninterp spec fn is_moment(seconds: i64, nanos: u32) -> bool;

/// What a suite is headed by.
pub uninterp spec fn suite_title(s: quick_junit::TestSuite) -> SuiteTitle;

/// The tests of a suite.
pub uninterp spec fn suite_cases(s: quick_junit::TestSuite) -> Seq<CaseEntry>;

/// What `quick_junit::Report::to_string` writes for a report with one suite, or the text of its
/// error.
pub uninterp spec fn junit_xml(
    report: Seq<char>,
    title: SuiteTitle,
    cases: Seq<CaseEntry>,
) -> core::result::Result<Seq<char>, Seq<char>>;

/// What is kept of an optional text.
pub open spec fn xml_option(s: Option<String>) -> Option<Seq<char>> {
    match s {
        Some(t) => Some(xml_text(t@)),
        None => None,
    }
}

/// What a suite keeps of a test: of one that passed neither message.
pub open spec fn case_entry(c: JunitCase) -> CaseEntry {
    let passed = c.status == JunitStatus::Success;
    CaseEntry {
        name: xml_text(c.name@),
        classname: xml_option(c.classname),
        status: c.status,
        message: if passed {
            None
        } else {
            xml_option(c.message)
        },
        description: if passed {
            None
        } else {
            xml_option(c.description)
        },
        time: c.time,
    }
}

/// `quick_junit::TestSuite::new` makes a suite without tests.
#[verifier::external_body]
pub(crate) fn new_suite(name: &str) -> (s: quick_junit::TestSuite)
    ensures
        suite_title(s) == (SuiteTitle { name: xml_text(name@), timestamp: None, time: None }),
        suite_cases(s) == Seq::<CaseEntry>::empty(),
{
    quick_junit::TestSuite::new(name)
}

/// `quick_junit::TestSuite::set_timestamp` sets when a suite was run, to the point in time that
/// `chrono::DateTime::from_timestamp` makes of the seconds and nanoseconds. Where that is none,
/// the suite stays as it is.
#[verifier::external_body]
pub(crate) fn set_suite_timestamp(s: &mut quick_junit::TestSuite, seconds: i64, nanos: u32)
    ensures
        suite_title(*final(s)) == (if is_moment(seconds, nanos) {
            SuiteTitle { timestamp: Some((seconds, nanos)), ..suite_title(*old(s)) }
        } else {
            suite_title(*old(s))
        }),
        suite_cases(*final(s)) == suite_cases(*old(s)),
{
    if let Some(t) = chrono::DateTime::from_timestamp(seconds, nanos) {
        s.set_timestamp(t);
    }
}

/// `quick_junit::TestSuite::set_time` sets how long a suite took.
#[verifier::external_body]
pub(crate) fn set_suite_time(s: &mut quick_junit::TestSuite, secs: u64, nanos: u32)
    requires
        nanos < 1_000_000_000,
    ensures
        suite_title(*final(s)) == (SuiteTitle {
            time: Some((secs, nanos)),
            ..suite_title(*old(s))
        }),
        suite_cases(*final(s)) == suite_cases(*old(s)),
{
    s.set_time(std::time::Duration::new(secs, nanos));
}

/// `quick_junit::TestSuite::add_test_case` adds a test behind those that a suite has. The parts of
/// the test are set as they are; `quick_junit::TestCaseStatus` keeps no messages of a test that
/// passed.
#[verifier::external_body]
pub(crate) fn add_case(s: &mut quick_junit::TestSuite, c: &JunitCase)
    requires
        c.time matches Some(t) ==> t.1 < 1_000_000_000,
    ensures
        suite_cases(*final(s)) == suite_cases(*old(s)).push(case_entry(*c)),
        suite_title(*final(s)) == suite_title(*old(s)),
{
    let status = match c.status {
        JunitStatus::Success => TestCaseStatus::success(),
        JunitStatus::Failure => TestCaseStatus::non_success(NonSuccessKind::Failure),
        JunitStatus::Error => TestCaseStatus::non_success(NonSuccessKind::Error),
        JunitStatus::Skipped => TestCaseStatus::skipped(),
    };
    let mut case = TestCase::new(&c.name, status);
    case.classname = c.classname.as_ref().map(XmlString::new);
    case.time = c.time.map(|t| std::time::Duration::new(t.0, t.1));
    if let Some(m) = &c.message { case.status.set_message(m); }
    if let Some(d) = &c.description { case.status.set_description(d); }
    s.add_test_case(case);
}

/// `quick_junit::Report::to_string` writes a report, here one with a single suite, as XML, or
/// gives an error, here as its text.
#[verifier::external_body]
pub(crate) fn render_report(name: &str, s: quick_junit::TestSuite) -> (r: core::result::Result<
    String,
    String,
>)
    ensures
        match junit_xml(xml_text(name@), suite_title(s), suite_cases(s)) {
            Ok(x) => r matches Ok(v) && v@ == x,
            Err(e) => r matches Err(v) && v@ == e,
        },
{
    let mut report = quick_junit::Report::new(name);
    report.add_test_suite(s);
    report.to_string().map_err(|e| e.to_string())
}

} // verus!
