use inquest::commands::export::{
    escape_data, escape_param, export_github, export_junit, export_tap, extract_source_location,
    ExportCommand, ExportFormat, ExportStep,
};
use inquest::commands::Command;
use inquest::repository::{RunId, TestResult, TestRun};
use inquest::store::Store;
use inquest::time::{Duration, Timestamp};
use inquest::ui::{Message, Transcript};

fn outputs(ui: &Transcript) -> Vec<String> {
    ui.messages
        .iter()
        .filter_map(|m| match m {
            Message::Output(s) => Some(s.clone()),
            _ => None,
        })
        .collect()
}

fn xml_str(s: &quick_junit::XmlString) -> &str {
    s
}

fn xml_str_opt(s: &Option<quick_junit::XmlString>) -> Option<&str> {
    s.as_deref()
}

fn make_test_run() -> TestRun {
    let mut test_run = TestRun::new(RunId::new("0"));
    test_run.timestamp = Timestamp { seconds: 1000000000, nanos: 0 };

    test_run.add_result(
        TestResult::success("tests.unit.test_alpha").with_duration(Duration::from_millis(100)),
    );
    test_run.add_result(
        TestResult::failure("tests.unit.test_beta", "assertion failed")
            .with_duration(Duration::from_millis(200))
            .with_details("Traceback:\n  line 42\nAssertionError"),
    );
    test_run.add_result(TestResult::skip("tests.unit.test_gamma"));
    test_run.add_result(
        TestResult::error("tests.unit.test_delta", "timeout")
            .with_duration(Duration::from_millis(5000)),
    );

    test_run
}

#[test]
fn test_export_junit() {
    let test_run = make_test_run();
    let xml = export_junit(&test_run).unwrap();

    // Parse the XML back to verify structure
    let report = quick_junit::Report::deserialize_from_str(&xml).unwrap();
    assert_eq!(xml_str_opt(&report.name), Some("inquest"));
    assert_eq!(report.test_suites.len(), 1);

    let suite = &report.test_suites[0];
    assert_eq!(xml_str(&suite.name), "run-0");
    assert_eq!(suite.test_cases.len(), 4);

    // Tests are sorted by ID: test_alpha, test_beta, test_delta, test_gamma
    let alpha = &suite.test_cases[0];
    assert_eq!(xml_str(&alpha.name), "test_alpha");
    assert_eq!(xml_str_opt(&alpha.classname), Some("tests.unit"));
    assert_eq!(alpha.time, Some(std::time::Duration::from_millis(100)));
    assert!(matches!(
        alpha.status,
        quick_junit::TestCaseStatus::Success { .. }
    ));

    let beta = &suite.test_cases[1];
    assert_eq!(xml_str(&beta.name), "test_beta");
    assert_eq!(beta.time, Some(std::time::Duration::from_millis(200)));
    match &beta.status {
        quick_junit::TestCaseStatus::NonSuccess {
            kind,
            message,
            description,
            ..
        } => {
            assert_eq!(*kind, quick_junit::NonSuccessKind::Failure);
            assert_eq!(xml_str_opt(message), Some("assertion failed"));
            assert_eq!(
                xml_str_opt(description),
                Some("Traceback:\n  line 42\nAssertionError")
            );
        }
        other => panic!("expected NonSuccess, got {:?}", other),
    }

    let delta = &suite.test_cases[2];
    assert_eq!(xml_str(&delta.name), "test_delta");
    match &delta.status {
        quick_junit::TestCaseStatus::NonSuccess { kind, message, .. } => {
            assert_eq!(*kind, quick_junit::NonSuccessKind::Error);
            assert_eq!(xml_str_opt(message), Some("timeout"));
        }
        other => panic!("expected NonSuccess, got {:?}", other),
    }

    let gamma = &suite.test_cases[3];
    assert_eq!(xml_str(&gamma.name), "test_gamma");
    assert!(matches!(
        gamma.status,
        quick_junit::TestCaseStatus::Skipped { .. }
    ));
}

#[test]
fn test_export_tap() {
    let test_run = make_test_run();
    let tap = export_tap(&test_run);

    assert_eq!(
        tap,
        "\
TAP version 13
1..4
ok 1 tests.unit.test_alpha
not ok 2 tests.unit.test_beta
  ---
  message: assertion failed
  severity: failure
  data: |
    Traceback:
      line 42
    AssertionError
  ...
not ok 3 tests.unit.test_delta
  ---
  message: timeout
  severity: error
  ...
ok 4 tests.unit.test_gamma # SKIP
"
    );
}

#[test]
fn test_export_command_json() {

    let mut repo = Store::new();

    let mut test_run = TestRun::new(RunId::new("0"));
    test_run.timestamp = Timestamp { seconds: 1000000000, nanos: 0 };
    test_run.add_result(TestResult::success("test1"));
    repo.insert_test_run(test_run);

    let mut ui = Transcript::new();
    let cmd = ExportCommand::new(
        None,
        None,
        ExportFormat::Json,
    );
    let result = cmd.execute(&repo, &mut ui);
    match result.unwrap() {
        ExportStep::WriteJson(id) => assert_eq!(id.as_str(), "0"),
        other => panic!("unexpected: {:?}", other),
    }
}

#[test]
fn test_export_command_junit() {

    let mut repo = Store::new();

    let mut test_run = TestRun::new(RunId::new("0"));
    test_run.timestamp = Timestamp { seconds: 1000000000, nanos: 0 };
    test_run.add_result(TestResult::success("test1"));
    repo.insert_test_run(test_run);

    let mut ui = Transcript::new();
    let cmd = ExportCommand::new(
        None,
        None,
        ExportFormat::Junit,
    );
    let result = cmd.execute(&repo, &mut ui);
    assert!(matches!(result.unwrap(), ExportStep::Done(0)));

    let output = outputs(&ui).join("\n");
    let report = quick_junit::Report::deserialize_from_str(&output).unwrap();
    assert_eq!(report.test_suites.len(), 1);
    assert_eq!(report.test_suites[0].test_cases.len(), 1);
    assert_eq!(&*report.test_suites[0].test_cases[0].name, "test1");
}

#[test]
fn test_export_command_tap() {

    let mut repo = Store::new();

    let mut test_run = TestRun::new(RunId::new("0"));
    test_run.timestamp = Timestamp { seconds: 1000000000, nanos: 0 };
    test_run.add_result(TestResult::success("test1"));
    repo.insert_test_run(test_run);

    let mut ui = Transcript::new();
    let cmd = ExportCommand::new(
        None,
        None,
        ExportFormat::Tap,
    );
    let result = cmd.execute(&repo, &mut ui);
    assert!(matches!(result.unwrap(), ExportStep::Done(0)));

    let output = outputs(&ui).join("\n");
    assert_eq!(output, "TAP version 13\n1..1\nok 1 test1\n");
}

#[test]
fn test_export_format_from_str() {
    assert_eq!("json".parse::<ExportFormat>().unwrap(), ExportFormat::Json);
        assert_eq!(
        "junit".parse::<ExportFormat>().unwrap(),
        ExportFormat::Junit
    );
    assert_eq!("tap".parse::<ExportFormat>().unwrap(), ExportFormat::Tap);
    assert_eq!("JSON".parse::<ExportFormat>().unwrap(), ExportFormat::Json);
    assert_eq!(
        "github".parse::<ExportFormat>().unwrap(),
        ExportFormat::Github
    );
    assert_eq!(
        "gitlab".parse::<ExportFormat>().unwrap(),
        ExportFormat::Github
    );
    assert!("csv".parse::<ExportFormat>().is_err());
}

#[test]
fn test_extract_source_location_python() {
    let details = "Traceback (most recent call last):\n  \
        File \"tests/foo.py\", line 11, in setUp\n    self.x = 1\n  \
        File \"tests/foo.py\", line 42, in test_bar\n    \
        self.assertEqual(1, 2)\nAssertionError: 1 != 2";
    let loc = extract_source_location(details).unwrap();
    assert_eq!(loc.file, "tests/foo.py");
    assert_eq!(loc.line, 42);
    assert_eq!(loc.col, None);
}

#[test]
fn test_extract_source_location_rust_panic() {
    let details = "thread 'main' panicked at src/foo.rs:12:5:\nassertion failed";
    let loc = extract_source_location(details).unwrap();
    assert_eq!(loc.file, "src/foo.rs");
    assert_eq!(loc.line, 12);
    assert_eq!(loc.col, Some(5));
}

#[test]
fn test_extract_source_location_generic() {
    let details = "Error reading config\n  at lib/util.go:88: invalid token";
    let loc = extract_source_location(details).unwrap();
    assert_eq!(loc.file, "lib/util.go");
    assert_eq!(loc.line, 88);
}

#[test]
fn test_extract_source_location_none() {
    assert!(extract_source_location("just a plain message").is_none());
}

#[test]
fn test_export_github_basic() {
    // make_test_run() provides: alpha (success), beta (failure with
    // generic "Traceback:" details that don't carry a file/line),
    // delta (error, no details), gamma (skip). So only beta and
    // delta produce annotations, and neither has a usable location.
    let test_run = make_test_run();
    let out = export_github(&test_run);

    assert_eq!(
        out,
        "::error title=tests.unit.test_beta::assertion failed\n\
         ::error title=tests.unit.test_delta::timeout\n"
    );
}

#[test]
fn test_export_github_with_python_location() {
    let mut test_run = TestRun::new(RunId::new("0"));
    test_run.timestamp = Timestamp { seconds: 1000000000, nanos: 0 };
    test_run.add_result(
        TestResult::failure("tests.test_x", "AssertionError: 1 != 2").with_details(
            "Traceback (most recent call last):\n  \
             File \"tests/test_x.py\", line 42, in test_one\n    \
             self.assertEqual(1, 2)\nAssertionError: 1 != 2",
        ),
    );

    let out = export_github(&test_run);
    assert_eq!(
        out,
        "::error file=tests/test_x.py,line=42,title=tests.test_x::AssertionError: 1 != 2\n"
    );
}

#[test]
fn test_export_github_with_rust_location() {
    let mut test_run = TestRun::new(RunId::new("0"));
    test_run.timestamp = Timestamp { seconds: 1000000000, nanos: 0 };
    test_run.add_result(
        TestResult::failure("crate::tests::it_works", "assertion failed").with_details(
            "thread 'tests::it_works' panicked at src/lib.rs:99:9:\n\
             assertion `left == right` failed\n  left: 1\n right: 2",
        ),
    );

    let out = export_github(&test_run);
    assert_eq!(
        out,
        "::error file=src/lib.rs,line=99,col=9,title=crate%3A%3Atests%3A%3Ait_works::assertion failed\n"
    );
}

#[test]
fn test_export_github_skips_passing() {
    let mut test_run = TestRun::new(RunId::new("0"));
    test_run.timestamp = Timestamp { seconds: 1000000000, nanos: 0 };
    test_run.add_result(TestResult::success("a"));
    test_run.add_result(TestResult::skip("b"));

    let out = export_github(&test_run);
    assert_eq!(out, "");
}

#[test]
fn test_export_github_escapes_message_newlines() {
    let mut test_run = TestRun::new(RunId::new("0"));
    test_run.timestamp = Timestamp { seconds: 1000000000, nanos: 0 };
    // Multi-line `message` (rare, but possible). Only the first line
    // should appear in the annotation; embedded `%` should be escaped.
    test_run.add_result(TestResult::failure("t", "first line\nsecond line"));
    test_run.add_result(TestResult::failure("u", "100% broken"));

    let out = export_github(&test_run);
    let lines: Vec<&str> = out.lines().collect();
    assert_eq!(lines.len(), 2);
    assert!(lines[0].ends_with("::first line"), "got: {}", lines[0]);
    assert!(lines[1].ends_with("::100%25 broken"), "got: {}", lines[1]);
}

#[test]
fn test_export_github_falls_back_to_status() {
    let mut test_run = TestRun::new(RunId::new("0"));
    test_run.timestamp = Timestamp { seconds: 1000000000, nanos: 0 };
    // No message at all — use status as the body so the annotation is
    // still meaningful.
    let mut result = TestResult::failure("t", "");
    result.message = None;
    test_run.add_result(result);

    let out = export_github(&test_run);
    assert_eq!(out, "::error title=t::failure\n");
}

#[test]
fn test_export_command_github() {

    let mut repo = Store::new();

    let mut test_run = TestRun::new(RunId::new("0"));
    test_run.timestamp = Timestamp { seconds: 1000000000, nanos: 0 };
    // Note: subunit roundtrip stores `details` only; `message` is
    // reconstructed from the same bytes on read, so the first line of
    // the details becomes the annotation body.
    test_run
        .add_result(TestResult::failure("test_x", "boom").with_details(
            "File \"tests/x.py\", line 7, in test_x\n    raise AssertionError()",
        ));
    repo.insert_test_run(test_run);

    let mut ui = Transcript::new();
    let cmd = ExportCommand::new(
        None,
        None,
        ExportFormat::Github,
    );
    let result = cmd.execute(&repo, &mut ui);
    assert!(matches!(result.unwrap(), ExportStep::Done(0)));

    let output = outputs(&ui).join("\n");
    assert!(
        output.contains("::error file=tests/x.py,line=7,title=test_x::"),
        "got: {}",
        output
    );
}

#[test]
fn test_junit_classname_splitting() {
    let mut test_run = TestRun::new(RunId::new("0"));
    test_run.timestamp = Timestamp { seconds: 1000000000, nanos: 0 };

    test_run.add_result(TestResult::success("tests.unit.test_foo"));
    test_run.add_result(TestResult::success("tests::unit::test_bar"));
    test_run.add_result(TestResult::success("simple_test"));

    let xml = export_junit(&test_run).unwrap();
    let report = quick_junit::Report::deserialize_from_str(&xml).unwrap();
    let cases = &report.test_suites[0].test_cases;

    // Sorted by test ID: simple_test, tests.unit.test_foo, tests::unit::test_bar
    assert_eq!(xml_str(&cases[0].name), "simple_test");
    assert_eq!(xml_str_opt(&cases[0].classname), None);

    assert_eq!(xml_str(&cases[1].name), "test_foo");
    assert_eq!(xml_str_opt(&cases[1].classname), Some("tests.unit"));

    assert_eq!(xml_str(&cases[2].name), "test_bar");
    assert_eq!(xml_str_opt(&cases[2].classname), Some("tests::unit"));
}

#[test]
fn export_command_name_and_help() {
    let cmd = ExportCommand::new(None, None, ExportFormat::Tap);
    assert_eq!(cmd.name(), "export");
    assert!(!cmd.help().is_empty());
}

#[test]
fn parameters_are_escaped() {
    assert_eq!(escape_param("a:b,c%d\ne"), "a%3Ab%2Cc%25d%0Ae");
    assert_eq!(escape_data("a:b,c%d\r\ne"), "a:b,c%25d%0D%0Ae");
}

#[test]
fn last_location_of_any_kind_is_taken() {
    let details = "File \"a.py\", line 1, in f\nsrc/b.rs:2:3: boom";
    let loc = extract_source_location(details).unwrap();
    assert_eq!(loc.file, "src/b.rs");
    assert_eq!(loc.line, 2);
    assert_eq!(loc.col, Some(3));
    let details = "src/b.rs:2:3: boom\nlib/c.go:4: x\nFile \"a.py\", line 1, in f";
    let loc = extract_source_location(details).unwrap();
    assert_eq!(loc.file, "a.py");
    assert_eq!(loc.line, 1);
    assert_eq!(loc.col, None);
    let loc = extract_source_location("src/b.rs:2:3 then lib/c.go:4 x").unwrap();
    assert_eq!(loc.file, "lib/c.go");
    assert_eq!(loc.line, 4);
    assert!(extract_source_location("a.py:1\nb.py:99999999999").is_none());
    let loc = extract_source_location("b.py:99999999999\n\u{e9}\u{e9}/a.py:1").unwrap();
    assert_eq!(loc.file, "\u{e9}\u{e9}/a.py");
}
