use inquest::collection::TextMap;
use inquest::commands::running::{format_duration_secs, format_running_line, RunningCommand};
use inquest::commands::Command;
use inquest::repository::{RunId, TestId, TestResult, TestRun, TestStatus};
use inquest::store::Store;
use inquest::time::{Duration, Timestamp};
use inquest::ui::{Message, Transcript};

fn outputs(ui: &Transcript) -> Vec<String> {
    ui.messages
        .iter()
        .filter_map(|m| match m {
            Message::Output(s) => Some(s.clone()),
            _ => None,
        })
        .collect()
}

#[test]
fn test_running_command_no_runs() {
    let repo = Store::new();

    let mut ui = Transcript::new();
    let cmd = RunningCommand::new(None);
    let result = cmd.execute(&repo, &mut ui);

    assert_eq!(result.unwrap(), 0);
    assert_eq!(outputs(&ui)[0], "No test runs currently in progress.");
}

#[test]
fn test_running_command_completed_run_not_shown() {
    let mut repo = Store::new();

    let run = TestRun::new(RunId::new("0"));
    repo.insert_test_run(run);

    let mut ui = Transcript::new();
    let cmd = RunningCommand::new(None);
    let result = cmd.execute(&repo, &mut ui);

    assert_eq!(result.unwrap(), 0);
    assert_eq!(outputs(&ui)[0], "No test runs currently in progress.");
}

#[test]
fn test_format_running_line_with_history_zero_elapsed() {
    // 4 tests historically, each 2s. One completed in this run.
    // With elapsed = 0, estimate_progress takes the no-elapsed
    // fallback: ETA = sum of unobserved historical durations = 6s.
    let mut historical = TextMap::new();
    for i in 0..4 {
        historical.insert(&format!("test_{i}"), Duration::from_secs(2));
    }
    let run_id = RunId::new("7");
    let mut run = TestRun::new(run_id.copy());
    run.add_result(TestResult {
        test_id: TestId::new("test_0"),
        status: TestStatus::Success,
        duration: Some(Duration::from_secs(2)),
        message: None,
        details: None,
        tags: vec![],
    });

    let line = format_running_line(&run_id, &run, &historical, Duration::from_secs(0));
    assert_eq!(
        line,
        "Run 7: 1/4 tests (1 passed, 0 failed), 25% complete, elapsed 0s, ETA 6s",
    );
}

#[test]
fn test_format_running_line_with_history_nonzero_elapsed() {
    // Same setup, but with 4s elapsed: estimate_progress takes the
    // wall-clock projection branch. fraction_done = 0.25, projected
    // total = 4 / 0.25 = 16s, ETA = 12s.
    let mut historical = TextMap::new();
    for i in 0..4 {
        historical.insert(&format!("test_{i}"), Duration::from_secs(2));
    }
    let run_id = RunId::new("7");
    let mut run = TestRun::new(run_id.copy());
    run.add_result(TestResult {
        test_id: TestId::new("test_0"),
        status: TestStatus::Success,
        duration: Some(Duration::from_secs(2)),
        message: None,
        details: None,
        tags: vec![],
    });

    let line = format_running_line(&run_id, &run, &historical, Duration::from_secs(4));
    assert_eq!(
        line,
        "Run 7: 1/4 tests (1 passed, 0 failed), 25% complete, elapsed 4s, ETA 12s",
    );
}

#[test]
fn test_format_running_line_no_history_omits_eta_and_percent() {
    let historical = TextMap::new();
    let run_id = RunId::new("3");
    let run = TestRun::new(run_id.copy());

    let line = format_running_line(&run_id, &run, &historical, Duration::from_secs(2));
    assert_eq!(line, "Run 3: 0 tests (0 passed, 0 failed), elapsed 2s");
}

#[test]
fn running_runs_are_shown_with_their_age() {
    let mut repo = Store::new();
    let mut run = TestRun::new(RunId::new("5"));
    run.timestamp = Timestamp { seconds: 1_000, nanos: 0 };
    run.add_result(TestResult::failure("a", "x").with_duration(Duration::from_secs(2)));
    repo.insert_test_run(run);
    repo.runs[0].in_progress = true;
    let cmd = RunningCommand::new(None);
    assert_eq!(cmd.name(), "running");
    let mut ui = Transcript::new();
    let now = Timestamp { seconds: 1_061, nanos: 999_999_999 };
    assert_eq!(cmd.execute_at(&repo, now, &mut ui).unwrap(), 0);
    assert_eq!(
        outputs(&ui),
        vec!["Run 5: 1/1 tests (0 passed, 1 failed), 100% complete, elapsed 1m 01s, ETA 0s"]
    );
    let mut ui = Transcript::new();
    let before = Timestamp { seconds: 900, nanos: 0 };
    assert_eq!(cmd.execute_at(&repo, before, &mut ui).unwrap(), 0);
    assert!(outputs(&ui)[0].contains("elapsed 0s"));
}

#[test]
fn seconds_are_shown_like_a_clock() {
    assert_eq!(format_duration_secs(-5), "-5s");
    assert_eq!(format_duration_secs(59), "59s");
    assert_eq!(format_duration_secs(61), "1m 01s");
    assert_eq!(format_duration_secs(3_660), "1h 01m");
}
