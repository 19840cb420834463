use inquest::commands::log::LogCommand;
use inquest::commands::Command;
use inquest::glob::{matches_any_pattern, Glob};
use inquest::repository::{RunId, TestId, TestResult, TestRun, TestStatus};
use inquest::store::Store;
use inquest::time::{Duration, Timestamp};
use inquest::ui::{Message, Transcript};

fn outputs(ui: &Transcript) -> Vec<String> {
    ui.messages
        .iter()
        .filter_map(|m| match m {
            Message::Output(s) => Some(s.clone()),
            _ => None,
        })
        .collect()
}

fn errors(ui: &Transcript) -> Vec<String> {
    ui.messages
        .iter()
        .filter_map(|m| match m {
            Message::Error(s) => Some(s.clone()),
            Message::Warning(s) => Some(format!("Warning: {}", s)),
            _ => None,
        })
        .collect()
}

#[test]
fn test_log_command_latest_run() {
    let mut repo = Store::new();

    let mut test_run = TestRun::new(RunId::new("0"));
    test_run.timestamp = Timestamp { seconds: 1000000000, nanos: 0 };
    test_run.add_result(TestResult {
        test_id: TestId::new("test1"),
        status: TestStatus::Success,
        duration: Some(Duration::from_millis(100)),
        message: None,
        details: Some("test output here".to_string()),
        tags: vec![],
    });

    repo.insert_test_run(test_run);

    let mut ui = Transcript::new();
    let cmd = LogCommand::new(
        None,
        None,
        vec![Glob::new("test1").unwrap()],
    );
    let result = cmd.execute(&repo, &mut ui);
    assert_eq!(result.unwrap(), 0);
    assert_eq!(outputs(&ui)[0], "test: test1");
    assert_eq!(outputs(&ui)[1], "status: success");
    assert_eq!(outputs(&ui)[2], "duration: 0.100s");
    assert_eq!(outputs(&ui)[3], "---");
    assert_eq!(outputs(&ui)[4], "test output here");
}

#[test]
fn test_log_command_specific_run() {
    let mut repo = Store::new();

    let mut run0 = TestRun::new(RunId::new("0"));
    run0.timestamp = Timestamp { seconds: 1000000000, nanos: 0 };
    run0.add_result(TestResult {
        test_id: TestId::new("test1"),
        status: TestStatus::Failure,
        duration: None,
        message: Some("failed".to_string()),
        details: Some("old output".to_string()),
        tags: vec![],
    });
    repo.insert_test_run(run0);

    let mut run1 = TestRun::new(RunId::new("1"));
    run1.timestamp = Timestamp { seconds: 1000000001, nanos: 0 };
    run1.add_result(TestResult {
        test_id: TestId::new("test1"),
        status: TestStatus::Success,
        duration: None,
        message: None,
        details: Some("new output".to_string()),
        tags: vec![],
    });
    repo.insert_test_run(run1);

    let mut ui = Transcript::new();
    let cmd = LogCommand::new(
        None,
        Some("0".to_string()),
        vec![Glob::new("test1").unwrap()],
    );
    let result = cmd.execute(&repo, &mut ui);
    assert_eq!(result.unwrap(), 0);
    assert!(outputs(&ui).iter().any(|s| s == "status: failure"));
    assert!(outputs(&ui).iter().any(|s| s == "old output"));
}

#[test]
fn test_log_command_wildcard() {
    let mut repo = Store::new();

    let mut test_run = TestRun::new(RunId::new("0"));
    test_run.timestamp = Timestamp { seconds: 1000000000, nanos: 0 };
    test_run.add_result(TestResult {
        test_id: TestId::new("module.TestClass.test_alpha"),
        status: TestStatus::Success,
        duration: None,
        message: None,
        details: Some("alpha output".to_string()),
        tags: vec![],
    });
    test_run.add_result(TestResult {
        test_id: TestId::new("module.TestClass.test_beta"),
        status: TestStatus::Failure,
        duration: None,
        message: Some("failed".to_string()),
        details: Some("beta output".to_string()),
        tags: vec![],
    });
    test_run.add_result(TestResult {
        test_id: TestId::new("other.Unrelated.test_gamma"),
        status: TestStatus::Success,
        duration: None,
        message: None,
        details: Some("gamma output".to_string()),
        tags: vec![],
    });

    repo.insert_test_run(test_run);

    let mut ui = Transcript::new();
    let cmd = LogCommand::new(
        None,
        None,
        vec![Glob::new("module.TestClass.*").unwrap()],
    );
    let result = cmd.execute(&repo, &mut ui);
    assert_eq!(result.unwrap(), 0);

    let all_output = outputs(&ui).join("\n");
    assert!(all_output.contains("test_alpha"));
    assert!(all_output.contains("test_beta"));
    assert!(!all_output.contains("test_gamma"));
}

#[test]
fn test_log_command_no_patterns_shows_all() {
    let mut repo = Store::new();

    let mut test_run = TestRun::new(RunId::new("0"));
    test_run.timestamp = Timestamp { seconds: 1000000000, nanos: 0 };
    test_run.add_result(TestResult {
        test_id: TestId::new("test1"),
        status: TestStatus::Success,
        duration: None,
        message: None,
        details: Some("output1".to_string()),
        tags: vec![],
    });
    test_run.add_result(TestResult {
        test_id: TestId::new("test2"),
        status: TestStatus::Failure,
        duration: None,
        message: Some("failed".to_string()),
        details: Some("output2".to_string()),
        tags: vec![],
    });

    repo.insert_test_run(test_run);

    let mut ui = Transcript::new();
    let cmd = LogCommand::new(
        None,
        None,
        vec![],
    );
    let result = cmd.execute(&repo, &mut ui);
    assert_eq!(result.unwrap(), 0);

    let all_output = outputs(&ui).join("\n");
    assert!(all_output.contains("test1"));
    assert!(all_output.contains("test2"));
}

#[test]
fn test_log_command_no_match() {
    let mut repo = Store::new();

    let mut test_run = TestRun::new(RunId::new("0"));
    test_run.timestamp = Timestamp { seconds: 1000000000, nanos: 0 };
    test_run.add_result(TestResult {
        test_id: TestId::new("test1"),
        status: TestStatus::Success,
        duration: None,
        message: None,
        details: None,
        tags: vec![],
    });

    repo.insert_test_run(test_run);

    let mut ui = Transcript::new();
    let cmd = LogCommand::new(
        None,
        None,
        vec![Glob::new("nonexistent*").unwrap()],
    );
    let result = cmd.execute(&repo, &mut ui);
    assert_eq!(result.unwrap(), 1);
    assert!(errors(&ui)[0].contains("No tests matching"));
}

#[test]
fn log_command_name_and_help() {
    let cmd = LogCommand::new(None, None, vec![]);
    assert_eq!(cmd.name(), "log");
    assert_eq!(cmd.help(), "Show logs for individual tests from a test run");
}

#[test]
fn patterns_are_globs() {
    let patterns = vec![Glob::new("a?c").unwrap(), Glob::new("x*").unwrap()];
    assert!(matches_any_pattern("abc", &patterns));
    assert!(matches_any_pattern("xyz", &patterns));
    assert!(!matches_any_pattern("abd", &patterns));
    assert!(matches_any_pattern("anything", &vec![]));
    assert!(Glob::new("[").unwrap_err().contains("Pattern syntax error"));
    assert_eq!(patterns[0].as_str(), "a?c");
}

#[test]
fn log_says_what_did_not_match() {
    let mut repo = Store::new();
    repo.insert_test_run(TestRun::new(RunId::new("0")));
    let mut ui = Transcript::new();
    let cmd = LogCommand::new(None, None, vec![]);
    assert_eq!(cmd.execute(&repo, &mut ui).unwrap(), 1);
    assert_eq!(errors(&ui), vec!["No tests found in run 0"]);
    let mut ui = Transcript::new();
    let patterns = vec![Glob::new("a*").unwrap(), Glob::new("b*").unwrap()];
    let cmd = LogCommand::new(None, None, patterns);
    assert_eq!(cmd.execute(&repo, &mut ui).unwrap(), 1);
    assert_eq!(errors(&ui), vec!["No tests matching 'a*', 'b*' found in run 0"]);
}

#[test]
fn log_tells_of_an_interruption_and_separates_tests() {
    let mut repo = Store::new();
    let mut run = TestRun::new(RunId::new("0"));
    run.add_result(TestResult::success("a"));
    run.add_result(TestResult::skip("b"));
    run.interruption = Some("eof".to_string());
    repo.insert_test_run(run);
    let mut ui = Transcript::new();
    let cmd = LogCommand::new(None, None, vec![]);
    assert_eq!(cmd.execute(&repo, &mut ui).unwrap(), 0);
    assert_eq!(
        outputs(&ui),
        vec![
            "WARNING: Stream interrupted (eof), results may be incomplete",
            "test: a",
            "status: success",
            "",
            "test: b",
            "status: skip",
        ]
    );
}
