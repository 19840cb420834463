use inquest::commands::rerun::RerunCommand;
use inquest::commands::Command;
use inquest::ordering::TestOrder;
use inquest::repository::{RunId, RunMetadata, TestResult, TestRun};
use inquest::store::Store;
use inquest::time::{Duration, Timestamp};
use inquest::ui::{Message, Transcript};

fn outputs(ui: &Transcript) -> Vec<String> {
    ui.messages
        .iter()
        .filter_map(|m| match m {
            Message::Output(s) => Some(s.clone()),
            _ => None,
        })
        .collect()
}

#[test]
fn test_rerun_command_name_and_help() {
    let cmd = RerunCommand::new(None, None);
    assert_eq!(cmd.name(), "rerun");
    assert!(!cmd.help().is_empty());
}

#[test]
fn test_rerun_no_recorded_tests() {
    let mut repo = Store::new();

    let run = TestRun::new(RunId::new("0"));
    let run_id = repo.insert_test_run(run);

    let mut ui = Transcript::new();
    let cmd = RerunCommand::new(
        None,
        Some(run_id.as_str().to_string()),
    );
    let err = cmd.plan(&repo, &mut ui).unwrap_err();
    assert_eq!(err.message(), "Run 0 has no recorded tests to re-run");
}

#[test]
fn test_rerun_run_not_found() {
    let repo = Store::new();

    let mut ui = Transcript::new();
    let cmd = RerunCommand::new(
        None,
        Some("999".to_string()),
    );
    assert!(cmd.plan(&repo, &mut ui).is_err());
}

#[test]
fn test_rerun_loads_order_and_args() {
    let mut repo = Store::new();

    let mut run = TestRun::new(RunId::new("0"));
    run.timestamp = Timestamp { seconds: 1000000000, nanos: 0 };
    run.add_result(
        TestResult::success("test_alpha").with_duration(Duration::from_millis(10)),
    );
    run.add_result(
        TestResult::success("test_beta").with_duration(Duration::from_millis(20)),
    );
    let run_id = repo.insert_test_run(run);
    repo.set_run_metadata(
        &run_id,
        RunMetadata {
            test_args: Some(vec!["--verbose".to_string()]),
            ..RunMetadata::default()
        },
    )
    .unwrap();

    let mut ui = Transcript::new();
    let cmd = RerunCommand::new(
        None,
        Some(run_id.as_str().to_string()),
    );
    let run_cmd = cmd.plan(&repo, &mut ui).unwrap();
    let tests: Vec<String> = run_cmd
        .test_ids_override
        .unwrap()
        .iter()
        .map(|t| t.as_str().to_string())
        .collect();
    assert_eq!(tests, vec!["test_alpha", "test_beta"]);
    assert_eq!(run_cmd.test_args, Some(vec!["--verbose".to_string()]));
    assert_eq!(run_cmd.test_order, Some(TestOrder::Discovery));

    let combined = outputs(&ui).join("\n");
    assert!(
        combined.contains("Re-running 2 test(s) from run 0"),
        "got: {}",
        combined
    );
    assert!(
        combined.contains("With test args: --verbose"),
        "got: {}",
        combined
    );
}
