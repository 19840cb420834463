use inquest::commands::upgrade::{failing_state, UpgradeCommand};
use inquest::commands::Command;
use inquest::config::resolved::TestrConfig;
use inquest::error::Error;
use inquest::repository::{RunId, TestId, TestResult, TestRun};
use inquest::store::Store;
use inquest::time::{Duration, Timestamp};
use inquest::ui::{Message, Transcript};

fn outputs(ui: &Transcript) -> Vec<String> {
    ui.messages
        .iter()
        .filter_map(|m| match m {
            Message::Output(s) => Some(s.clone()),
            _ => None,
        })
        .collect()
}

fn errors(ui: &Transcript) -> Vec<String> {
    ui.messages
        .iter()
        .filter_map(|m| match m {
            Message::Error(s) => Some(s.clone()),
            Message::Warning(s) => Some(format!("Warning: {}", s)),
            _ => None,
        })
        .collect()
}

#[test]
fn test_upgrade_empty_repository() {
    let old_repo = Store::new();
    let mut ui = Transcript::new();
    let cmd = UpgradeCommand::new(None);
    assert!(cmd.begin(true, false).is_ok());
    assert!(cmd.check_repository(true, false).is_ok());
    let new_repo = cmd.upgrade_repository(old_repo, &mut ui);
    assert_eq!(cmd.finish(true, &mut ui).unwrap(), 0);
    assert_eq!(new_repo.count(), 0);

    let output = outputs(&ui).join("\n");
    assert!(output.contains("0 test runs"), "got: {}", output);
    assert!(output.contains("Upgrade complete"), "got: {}", output);
}

#[test]
fn test_upgrade_with_runs() {
    let mut old_repo = Store::new();

    let mut run1 = TestRun::new(RunId::new("0"));
    run1.timestamp = Timestamp { seconds: 1000000000, nanos: 0 };
    run1.add_result(TestResult::success("test1").with_duration(Duration::from_secs(1)));
    run1.add_result(TestResult::failure("test2", "Failed"));
    old_repo.insert_test_run(run1);

    let mut run2 = TestRun::new(RunId::new("1"));
    run2.timestamp = Timestamp { seconds: 1000000001, nanos: 0 };
    run2.add_result(TestResult::success("test1").with_duration(Duration::from_secs(2)));
    run2.add_result(TestResult::success("test2"));
    old_repo.insert_test_run(run2);

    let mut ui = Transcript::new();
    let cmd = UpgradeCommand::new(None);
    let new_repo = cmd.upgrade_repository(old_repo, &mut ui);

    let output = outputs(&ui).join("\n");
    assert!(output.contains("2 test runs"), "got: {}", output);

    assert_eq!(new_repo.count(), 2);
    let ids: Vec<String> =
        new_repo.list_run_ids().iter().map(|r| r.as_str().to_string()).collect();
    assert_eq!(ids, vec!["0", "1"]);

    // Verify latest run contents
    let latest = new_repo.get_test_run(&new_repo.latest_run_id().unwrap()).unwrap();
    assert_eq!(latest.total_tests(), 2);
}

#[test]
fn test_upgrade_preserves_failing_tests() {
    let mut old_repo = Store::new();

    let mut run = TestRun::new(RunId::new("0"));
    run.timestamp = Timestamp { seconds: 1000000000, nanos: 0 };
    run.add_result(TestResult::success("test1"));
    run.add_result(TestResult::failure("test2", "Failed"));
    run.add_result(TestResult::failure("test3", "Also failed"));
    old_repo.insert_test_run(run);

    let mut ui = Transcript::new();
    let cmd = UpgradeCommand::new(None);
    let new_repo = cmd.upgrade_repository(old_repo, &mut ui);

    let failing = &new_repo.failing;
    assert_eq!(failing.len(), 2);
    assert!(failing.iter().any(|id| id.as_str() == "test2"));
    assert!(failing.iter().any(|id| id.as_str() == "test3"));
}

#[test]
fn test_upgrade_preserves_test_times() {
    let mut old_repo = Store::new();

    let mut run = TestRun::new(RunId::new("0"));
    run.timestamp = Timestamp { seconds: 1000000000, nanos: 0 };
    run.add_result(TestResult::success("test1").with_duration(Duration::from_millis(1500)));
    run.add_result(TestResult::success("test2").with_duration(Duration::from_millis(300)));
    old_repo.insert_test_run(run);

    let mut ui = Transcript::new();
    let cmd = UpgradeCommand::new(None);
    let new_repo = cmd.upgrade_repository(old_repo, &mut ui);

    assert_eq!(new_repo.times.len(), 2);
    assert_eq!(
        *new_repo.times.get("test1").unwrap(),
        Duration::from_millis(1500)
    );
}

#[test]
fn test_upgrade_no_old_repository() {
    let cmd = UpgradeCommand::new(None);
    let result = cmd.begin(false, false);
    assert!(result.is_err());
    assert_eq!(
        result.unwrap_err().message(),
        "Repository not found: ./.testrepository"
    );
}

#[test]
fn test_upgrade_new_repository_already_exists() {
    let cmd = UpgradeCommand::new(None);
    let result = cmd.check_repository(true, true);
    assert!(result.is_err());
    assert!(matches!(result.unwrap_err(), Error::RepositoryExists(p) if p == "./.inquest"));
    assert!(matches!(
        cmd.check_repository(false, true).unwrap_err(),
        Error::RepositoryNotFound(_)
    ));
}

#[test]
fn test_upgrade_only_testr_conf() {
    let conf = Ok("[DEFAULT]\n\
         test_command=python -m subunit.run discover\n\
         test_id_option=--load-list $IDFILE\n"
        .to_string());

    let mut ui = Transcript::new();
    let cmd = UpgradeCommand::new(None);
    assert!(cmd.begin(false, true).is_ok());
    let file = cmd.upgrade_config(false, false, &conf, &mut ui).unwrap().unwrap();
    cmd.finish_config(&file, Ok(()), &mut ui).unwrap();
    assert_eq!(cmd.finish(true, &mut ui).unwrap(), 0);

    // inquest.toml should be created with the same settings
    assert_eq!(file.path, "./inquest.toml");
    let parsed = TestrConfig::load_from_file(&file.path, &Ok(file.text.clone())).unwrap();
    assert_eq!(parsed.test_command, "python -m subunit.run discover");
    assert_eq!(
        parsed.test_id_option.as_deref(),
        Some("--load-list $IDFILE")
    );

    let output = outputs(&ui).join("\n");
    assert!(output.contains("Rewrote"), "got: {}", output);
    assert!(output.contains(".testr.conf"), "got: {}", output);
}

#[test]
fn test_upgrade_both_testr_conf_and_testrepository() {
    let conf = Ok("[DEFAULT]\ntest_command=cargo test\n".to_string());
    let mut ui = Transcript::new();
    let cmd = UpgradeCommand::new(None);
    assert!(cmd.begin(true, true).is_ok());
    let new_repo = cmd.upgrade_repository(Store::new(), &mut ui);
    assert_eq!(new_repo.count(), 0);
    let file = cmd.upgrade_config(false, false, &conf, &mut ui).unwrap().unwrap();

    let parsed = TestrConfig::load_from_file(&file.path, &Ok(file.text)).unwrap();
    assert_eq!(parsed.test_command, "cargo test");
}

#[test]
fn test_upgrade_testr_conf_skipped_when_toml_exists() {
    let conf = Ok("[DEFAULT]\ntest_command=from-testr\n".to_string());
    let mut ui = Transcript::new();
    let cmd = UpgradeCommand::new(None);
    let file = cmd.upgrade_config(true, false, &conf, &mut ui).unwrap();
    assert!(file.is_none());

    // A warning should have been emitted about the skipped rewrite
    let warnings = errors(&ui).join("\n");
    assert!(
        warnings.contains("inquest.toml") && warnings.contains("skipping"),
        "got: {}",
        warnings
    );
}

#[test]
fn test_upgrade_only_testr_conf_with_existing_inquest_toml() {
    let conf = Ok("[DEFAULT]\ntest_command=from-testr\n".to_string());
    let mut ui = Transcript::new();
    let cmd = UpgradeCommand::new(None);
    let file = cmd.upgrade_config(false, true, &conf, &mut ui).unwrap();
    assert!(file.is_none());
    assert_eq!(cmd.finish(false, &mut ui).unwrap(), 0);

    let output = outputs(&ui).join("\n");
    assert!(output.contains("Nothing to upgrade"), "got: {}", output);
}

#[test]
fn upgrade_takes_over_failures_without_results() {
    let mut old_repo = Store::new();
    let mut run = TestRun::new(RunId::new("0"));
    run.add_result(TestResult::failure("a", "x"));
    run.add_result(TestResult::success("b"));
    old_repo.insert_test_run(run);
    old_repo.failing = vec![TestId::new("lost"), TestId::new("b"), TestId::new("a")];
    old_repo.times.insert("lost", Duration::from_secs(9));
    let mut ui = Transcript::new();
    let cmd = UpgradeCommand::new(Some("/p".to_string()));
    assert_eq!(cmd.name(), "upgrade");
    let new_repo = cmd.upgrade_repository(old_repo, &mut ui);
    let failing: Vec<&str> = new_repo.failing.iter().map(|t| t.as_str()).collect();
    assert_eq!(failing, vec!["a", "b", "lost"]);
    assert_eq!(new_repo.runs[0].started_at, Some(new_repo.runs[0].run.timestamp));
    assert!(new_repo.runs[0].metadata.git_commit.is_none());
    assert_eq!(*new_repo.times.get("lost").unwrap(), Duration::from_secs(9));
    assert_eq!(
        outputs(&ui),
        vec![
            "Upgrading 1 test run from /p/.testrepository to /p/.inquest",
            "Upgrade complete. You can remove /p/.testrepository when satisfied.",
        ]
    );
    let written = cmd.upgrade_config(
        false,
        false,
        &Ok("[DEFAULT]\ntest_command=x\n".to_string()),
        &mut ui,
    );
    let file = written.unwrap().unwrap();
    let err = cmd.finish_config(&file, Err("full".to_string()), &mut ui).unwrap_err();
    assert_eq!(
        err.message(),
        "Configuration error: Failed to write /p/inquest.toml: full"
    );
}

#[test]
fn failing_state_is_that_of_the_latest_failure() {
    let mut repo = Store::new();
    for (i, message) in [Some("first"), Some("second"), None].iter().enumerate() {
        let mut run = TestRun::new(RunId::new(&i.to_string()));
        run.add_result(match message {
            Some(m) => TestResult::failure("t", m),
            None => TestResult::success("t"),
        });
        repo.insert_test_run(run);
    }
    repo.failing = vec![TestId::new("t"), TestId::new("u")];
    let state = failing_state(&repo);
    assert_eq!(state.results.find("t").unwrap().message.as_deref(), Some("second"));
    assert_eq!(
        state.results.find("u").unwrap().message.as_deref(),
        Some("migrated from .testrepository")
    );
}
