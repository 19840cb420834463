use inquest::commands::diff::{compute_diff, DiffCommand};
use inquest::commands::Command;
use inquest::repository::{RunId, TestResult, TestRun, TestStatus};
use inquest::store::Store;
use inquest::time::Timestamp;
use inquest::ui::{Message, Transcript};

fn outputs(ui: &Transcript) -> Vec<String> {
    ui.messages
        .iter()
        .filter_map(|m| match m {
            Message::Output(s) => Some(s.clone()),
            _ => None,
        })
        .collect()
}

fn make_run(id: &str, timestamp_offset: i64) -> TestRun {
    let mut run = TestRun::new(RunId::new(id));
    run.timestamp = Timestamp { seconds: 1000000000 + timestamp_offset, nanos: 0 };
    run
}

#[test]
fn test_diff_no_changes() {
    let mut repo = Store::new();

    let mut run1 = make_run("0", 0);
    run1.add_result(TestResult::success("test1"));
    run1.add_result(TestResult::success("test2"));
    repo.insert_test_run(run1);

    let mut run2 = make_run("1", 1);
    run2.add_result(TestResult::success("test1"));
    run2.add_result(TestResult::success("test2"));
    repo.insert_test_run(run2);

    let mut ui = Transcript::new();
    let cmd = DiffCommand::new(None, None, None);
    let result = cmd.execute(&repo, &mut ui);

    assert_eq!(result.unwrap(), 0);
    assert!(outputs(&ui).iter().any(|s| s == "No changes."));
}

#[test]
fn test_diff_new_failure() {
    let mut repo = Store::new();

    let mut run1 = make_run("0", 0);
    run1.add_result(TestResult::success("test1"));
    run1.add_result(TestResult::success("test2"));
    repo.insert_test_run(run1);

    let mut run2 = make_run("1", 1);
    run2.add_result(TestResult::success("test1"));
    run2.add_result(TestResult::failure("test2", "broke"));
    repo.insert_test_run(run2);

    let mut ui = Transcript::new();
    let cmd = DiffCommand::new(None, None, None);
    let result = cmd.execute(&repo, &mut ui);

    assert_eq!(result.unwrap(), 1);
    let output = outputs(&ui).join("\n");
    assert!(output.contains("New failures (1)"), "got: {}", output);
    assert!(output.contains("test2 (failure)"), "got: {}", output);
}

#[test]
fn test_diff_new_pass() {
    let mut repo = Store::new();

    let mut run1 = make_run("0", 0);
    run1.add_result(TestResult::failure("test1", "broke"));
    repo.insert_test_run(run1);

    let mut run2 = make_run("1", 1);
    run2.add_result(TestResult::success("test1"));
    repo.insert_test_run(run2);

    let mut ui = Transcript::new();
    let cmd = DiffCommand::new(None, None, None);
    let result = cmd.execute(&repo, &mut ui);

    assert_eq!(result.unwrap(), 0);
    let output = outputs(&ui).join("\n");
    assert!(output.contains("New passes (1)"), "got: {}", output);
    assert!(output.contains("test1"), "got: {}", output);
}

#[test]
fn test_diff_added_and_removed() {
    let mut repo = Store::new();

    let mut run1 = make_run("0", 0);
    run1.add_result(TestResult::success("test1"));
    run1.add_result(TestResult::success("old_test"));
    repo.insert_test_run(run1);

    let mut run2 = make_run("1", 1);
    run2.add_result(TestResult::success("test1"));
    run2.add_result(TestResult::success("new_test"));
    repo.insert_test_run(run2);

    let mut ui = Transcript::new();
    let cmd = DiffCommand::new(None, None, None);
    let result = cmd.execute(&repo, &mut ui);

    assert_eq!(result.unwrap(), 0);
    let output = outputs(&ui).join("\n");
    assert!(output.contains("Added tests (1)"), "got: {}", output);
    assert!(output.contains("new_test"), "got: {}", output);
    assert!(output.contains("Removed tests (1)"), "got: {}", output);
    assert!(output.contains("old_test"), "got: {}", output);
}

#[test]
fn test_diff_status_changed() {
    let mut repo = Store::new();

    // Use success → skip: both are success-like but different statuses,
    // so this tests the status_changed path (not new_failures or new_passes).
    let mut run1 = make_run("0", 0);
    run1.add_result(TestResult::success("test1"));
    repo.insert_test_run(run1);

    let mut run2 = make_run("1", 1);
    run2.add_result(TestResult::skip("test1"));
    repo.insert_test_run(run2);

    let mut ui = Transcript::new();
    let cmd = DiffCommand::new(None, None, None);
    let result = cmd.execute(&repo, &mut ui);

    assert_eq!(result.unwrap(), 0);
    let output = outputs(&ui).join("\n");
    assert!(output.contains("Status changed (1)"), "got: {}", output);
    assert!(output.contains("test1 (success → skip)"), "got: {}", output);
}

#[test]
fn test_diff_explicit_run_ids() {
    let mut repo = Store::new();

    let mut run0 = make_run("0", 0);
    run0.add_result(TestResult::success("test1"));
    repo.insert_test_run(run0);

    let mut run1 = make_run("1", 1);
    run1.add_result(TestResult::failure("test1", "broke"));
    repo.insert_test_run(run1);

    let mut run2 = make_run("2", 2);
    run2.add_result(TestResult::success("test1"));
    repo.insert_test_run(run2);

    // Compare run 0 and run 1 explicitly
    let mut ui = Transcript::new();
    let cmd = DiffCommand::new(
        None,
        Some("0".to_string()),
        Some("1".to_string()),
    );
    let result = cmd.execute(&repo, &mut ui);

    assert_eq!(result.unwrap(), 1);
    let output = outputs(&ui).join("\n");
    assert!(output.contains("Comparing run 0 → 1"), "got: {}", output);
    assert!(output.contains("New failures"), "got: {}", output);
}

#[test]
fn test_diff_needs_two_runs() {
    let mut repo = Store::new();

    let mut run = make_run("0", 0);
    run.add_result(TestResult::success("test1"));
    repo.insert_test_run(run);

    let mut ui = Transcript::new();
    let cmd = DiffCommand::new(None, None, None);
    let result = cmd.execute(&repo, &mut ui);

    assert!(result.is_err());
}

#[test]
fn diff_command_name_and_help() {
    let cmd = DiffCommand::new(None, None, None);
    assert_eq!(cmd.name(), "diff");
    assert_eq!(cmd.help(), "Compare two test runs and show what changed");
}

#[test]
fn every_changed_test_is_in_one_list() {
    let mut run1 = make_run("0", 0);
    run1.add_result(TestResult::success("same"));
    run1.add_result(TestResult::success("breaks"));
    run1.add_result(TestResult::error("heals", "x"));
    run1.add_result(TestResult::error("shifts", "x"));
    run1.add_result(TestResult::skip("goes"));
    let mut run2 = make_run("1", 1);
    run2.add_result(TestResult::success("same"));
    run2.add_result(TestResult::failure("breaks", "x"));
    run2.add_result(TestResult::success("heals"));
    run2.add_result(TestResult::failure("shifts", "x"));
    run2.add_result(TestResult::failure("comes", "x"));
    let d = compute_diff(&run1, &run2);
    assert_eq!(d.new_failures.len(), 1);
    assert_eq!(d.new_failures[0].test_id.as_str(), "breaks");
    assert_eq!(d.new_passes.len(), 1);
    assert_eq!(d.new_passes[0].test_id.as_str(), "heals");
    assert_eq!(d.status_changed.len(), 1);
    assert_eq!(d.status_changed[0].change.old, Some(TestStatus::Error));
    assert_eq!(d.status_changed[0].change.new, Some(TestStatus::Failure));
    assert_eq!(d.added.len(), 1);
    assert_eq!(d.added[0].test_id.as_str(), "comes");
    assert_eq!(d.removed.len(), 1);
    assert_eq!(d.removed[0].test_id.as_str(), "goes");
}

#[test]
fn a_run_does_not_differ_from_itself() {
    let mut repo = Store::new();
    let mut run = make_run("0", 0);
    run.add_result(TestResult::failure("t", "x"));
    repo.insert_test_run(run);
    let mut ui = Transcript::new();
    let cmd = DiffCommand::new(None, Some("0".to_string()), None);
    assert_eq!(cmd.execute(&repo, &mut ui).unwrap(), 0);
    assert_eq!(outputs(&ui), vec!["Comparing run 0 → 0", "No changes."]);
}

#[test]
fn diff_of_unknown_run_fails() {
    let mut repo = Store::new();
    repo.insert_test_run(make_run("0", 0));
    let mut ui = Transcript::new();
    let cmd = DiffCommand::new(None, Some("0".to_string()), Some("9".to_string()));
    let err = cmd.execute(&repo, &mut ui).unwrap_err();
    assert_eq!(err.message(), "Test run not found: 9");
}

#[test]
fn the_other_way_round_the_changes_are_mirrored() {
    let mut run1 = make_run("0", 0);
    run1.add_result(TestResult::success("a"));
    run1.add_result(TestResult::failure("b", "broke"));
    run1.add_result(TestResult::success("gone"));
    run1.add_result(TestResult::skip("s"));
    let mut run2 = make_run("1", 1);
    run2.add_result(TestResult::failure("a", "broke"));
    run2.add_result(TestResult::success("b"));
    run2.add_result(TestResult::success("new"));
    run2.add_result(TestResult::success("s"));
    let there = compute_diff(&run1, &run2);
    let back = compute_diff(&run2, &run1);
    assert_eq!(there.new_failures[0].test_id.as_str(), "a");
    assert_eq!(back.new_passes[0].test_id.as_str(), "a");
    assert_eq!(back.new_failures[0].test_id.as_str(), "b");
    assert_eq!(there.added[0].test_id.as_str(), "new");
    assert_eq!(back.removed[0].test_id.as_str(), "new");
    assert_eq!(back.added[0].test_id.as_str(), "gone");
    assert_eq!(there.status_changed[0].change.old, Some(TestStatus::Skip));
    assert_eq!(back.status_changed[0].change.new, Some(TestStatus::Skip));
    assert_eq!(back.status_changed[0].change.old, there.status_changed[0].change.new);
}
