use inquest::commands::info::InfoCommand;
use inquest::commands::Command;
use inquest::repository::{RunId, RunMetadata, TestResult, TestRun};
use inquest::store::Store;
use inquest::time::{Duration, Timestamp};
use inquest::ui::{Message, Transcript};

fn outputs(ui: &Transcript) -> Vec<String> {
    ui.messages
        .iter()
        .filter_map(|m| match m {
            Message::Output(s) => Some(s.clone()),
            _ => None,
        })
        .collect()
}

#[test]
fn test_info_command_with_metadata() {
    let mut repo = Store::new();

    let mut run = TestRun::new(RunId::new("0"));
    run.timestamp = Timestamp { seconds: 1000000000, nanos: 0 };
    run.add_result(
        TestResult::success("test1").with_duration(Duration::from_secs(1)),
    );
    run.add_result(TestResult::failure("test2", "failed"));
    repo.insert_test_run(run);

    repo.set_run_metadata(
        &RunId::new("0"),
        RunMetadata {
            git_commit: Some("abc123".to_string()),
            git_dirty: Some(true),
            command: Some("cargo test".to_string()),
            concurrency: Some(4),
            duration: Some(Duration::from_millis(12_500)),
            exit_code: Some(1),
            ..RunMetadata::default()
        },
    )
    .unwrap();

    let mut ui = Transcript::new();
    let cmd = InfoCommand::new(None, None);
    let result = cmd.execute(&repo, &mut ui);
    assert_eq!(result.unwrap(), 0);

    assert_eq!(outputs(&ui)[0], "Run: 0");
    assert!(outputs(&ui)[1].starts_with("Timestamp: "));
    assert_eq!(outputs(&ui)[2], "Git commit: abc123 (dirty)");
    assert_eq!(outputs(&ui)[3], "Command: cargo test");
    assert_eq!(outputs(&ui)[4], "Concurrency: 4");
    assert_eq!(outputs(&ui)[5], "Duration: 12.500s");
    assert_eq!(outputs(&ui)[6], "Exit code: 1");
    assert_eq!(outputs(&ui)[7], "Total tests: 2");
    assert_eq!(outputs(&ui)[8], "Passed: 1");
    assert_eq!(outputs(&ui)[9], "Failed: 1");
    assert_eq!(outputs(&ui)[10], "Total test time: 1.000s");
}

#[test]
fn test_info_command_clean_commit() {
    let mut repo = Store::new();

    let mut run = TestRun::new(RunId::new("0"));
    run.timestamp = Timestamp { seconds: 1000000000, nanos: 0 };
    run.add_result(TestResult::success("test1"));
    repo.insert_test_run(run);

    repo.set_run_metadata(
        &RunId::new("0"),
        RunMetadata {
            git_commit: Some("def456".to_string()),
            git_dirty: Some(false),
            command: None,
            concurrency: None,
            duration: None,
            exit_code: Some(0),
            ..RunMetadata::default()
        },
    )
    .unwrap();

    let mut ui = Transcript::new();
    let cmd = InfoCommand::new(None, None);
    let result = cmd.execute(&repo, &mut ui);
    assert_eq!(result.unwrap(), 0);

    assert_eq!(outputs(&ui)[2], "Git commit: def456");
}

#[test]
fn test_info_command_no_metadata() {
    let mut repo = Store::new();

    let mut run = TestRun::new(RunId::new("0"));
    run.timestamp = Timestamp { seconds: 1000000000, nanos: 0 };
    run.add_result(TestResult::success("test1"));
    repo.insert_test_run(run);

    let mut ui = Transcript::new();
    let cmd = InfoCommand::new(None, None);
    let result = cmd.execute(&repo, &mut ui);
    assert_eq!(result.unwrap(), 0);

    // Should show run info and test counts but no metadata fields
    assert_eq!(outputs(&ui)[0], "Run: 0");
    assert!(outputs(&ui)[1].starts_with("Timestamp: "));
    assert_eq!(outputs(&ui)[2], "Total tests: 1");
    assert_eq!(outputs(&ui)[3], "Passed: 1");
    assert_eq!(outputs(&ui)[4], "Failed: 0");
}

#[test]
fn info_shows_when_the_run_was() {
    let mut repo = Store::new();
    let mut run = TestRun::new(RunId::new("0"));
    run.timestamp = Timestamp { seconds: 1_000_000_000, nanos: 0 };
    repo.insert_test_run(run);
    let mut ui = Transcript::new();
    let cmd = InfoCommand::new(None, Some("-1".to_string()));
    assert_eq!(cmd.execute(&repo, &mut ui).unwrap(), 0);
    assert_eq!(outputs(&ui)[1], "Timestamp: 2001-09-09 01:46:40 UTC");
}

#[test]
fn info_of_unknown_run_fails() {
    let repo = Store::new();
    let mut ui = Transcript::new();
    let cmd = InfoCommand::new(None, None);
    assert_eq!(cmd.name(), "info");
    assert_eq!(
        cmd.execute(&repo, &mut ui).unwrap_err().message(),
        "No test runs found"
    );
}
