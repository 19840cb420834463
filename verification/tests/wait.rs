use inquest::commands::wait::{WaitCommand, WaitProgress, EXIT_TIMEOUT};
use inquest::commands::Command;
use inquest::repository::{RunId, TestResult, TestRun};
use inquest::store::Store;
use inquest::time::{Duration, Timestamp};
use inquest::ui::{Message, Transcript};

fn outputs(ui: &Transcript) -> Vec<String> {
    ui.messages
        .iter()
        .filter_map(|m| match m {
            Message::Output(s) => Some(s.clone()),
            _ => None,
        })
        .collect()
}

fn errors(ui: &Transcript) -> Vec<String> {
    ui.messages
        .iter()
        .filter_map(|m| match m {
            Message::Error(s) => Some(s.clone()),
            Message::Warning(s) => Some(format!("Warning: {}", s)),
            _ => None,
        })
        .collect()
}

fn wait(cmd: &WaitCommand, repo: &Store, ui: &mut Transcript) -> i32 {
    let mut p = WaitProgress::new();
    let mut elapsed: u64 = 0;
    loop {
        if let Some(code) = cmd.poll(&mut p, repo, Duration::from_millis(elapsed), ui) {
            return code;
        }
        elapsed += 10;
    }
}

fn mark_in_progress(repo: &mut Store, run_id: &str) {
    for stored in repo.runs.iter_mut() {
        if stored.run.id.as_str() == run_id {
            stored.in_progress = true;
        }
    }
}

fn insert_run(
    repo: &mut Store,
    id: &str,
    results: Vec<TestResult>,
) {
    let mut run = TestRun::new(RunId::new(id));
    run.timestamp = Timestamp { seconds: 1_000_000_000, nanos: 0 };
    for r in results {
        run.add_result(r);
    }
    repo.insert_test_run(run);
}

#[test]
fn test_no_runs_in_progress_returns_immediately() {
    let repo = Store::new();

    let cmd = WaitCommand::new(
        None,
        None,
        Duration::from_secs(5),
        vec![],
        false,
        false,
    )
    .unwrap();
    let mut ui = Transcript::new();
    let exit = wait(&cmd, &repo, &mut ui);

    assert_eq!(exit, 0);
    assert_eq!(outputs(&ui), vec!["No matching runs are in progress"]);
}

#[test]
fn test_timeout_when_run_stays_in_progress() {
    let mut repo = Store::new();
    insert_run(&mut repo, "0", vec![TestResult::success("test1")]);
    mark_in_progress(&mut repo, "0");

    let cmd = WaitCommand::new(
        None,
        Some("0".into()),
        Duration::from_millis(50),
        vec![],
        false,
        false,
    )
    .unwrap();
    let mut ui = Transcript::new();
    let exit = wait(&cmd, &repo, &mut ui);

    assert_eq!(exit, EXIT_TIMEOUT);
    assert_eq!(errors(&ui).len(), 1);
    assert!(errors(&ui)[0].contains("Timed out"));
    assert!(errors(&ui)[0].contains("0"));
}

#[test]
fn test_status_filter_early_return() {
    let mut repo = Store::new();
    insert_run(
        &mut repo,
        "0",
        vec![
            TestResult::success("test_pass"),
            TestResult::failure("test_fail", "boom"),
        ],
    );
    mark_in_progress(&mut repo, "0");

    let cmd = WaitCommand::new(
        None,
        Some("0".into()),
        Duration::from_secs(5),
        vec!["failing".into()],
        false,
        false,
    )
    .unwrap();
    let mut ui = Transcript::new();
    let exit = wait(&cmd, &repo, &mut ui);

    assert_eq!(exit, 0);
    let joined = outputs(&ui).join("\n");
    assert!(joined.contains("matched status filter"), "got: {}", joined);
    assert!(joined.contains("test_fail"), "got: {}", joined);
    assert!(!joined.contains("test_pass"), "got: {}", joined);
}

#[test]
fn test_stream_only_failures_filters_output() {
    let mut repo = Store::new();
    insert_run(
        &mut repo,
        "0",
        vec![
            TestResult::success("test_pass"),
            TestResult::failure("test_fail", "boom"),
        ],
    );
    // Don't mark in progress — run is already complete, so streaming
    // should emit once and exit.

    let cmd = WaitCommand::new(
        None,
        None,
        Duration::from_secs(5),
        vec![],
        true,
        true,
    )
    .unwrap();
    let mut ui = Transcript::new();
    let exit = wait(&cmd, &repo, &mut ui);

    assert_eq!(exit, 0);
    // Run is already complete at first poll, so no runs are iterated
    // for streaming. This verifies the "no active runs" path doesn't
    // spuriously print anything.
    assert!(outputs(&ui).is_empty(), "got: {:?}", outputs(&ui));
}

#[test]
fn test_stream_prints_only_failing_tests_while_running() {
    let mut repo = Store::new();
    insert_run(
        &mut repo,
        "0",
        vec![
            TestResult::success("test_pass"),
            TestResult::failure("test_fail", "boom"),
        ],
    );
    mark_in_progress(&mut repo, "0");

    // Timeout fires quickly; we just want to observe one streaming pass.
    let cmd = WaitCommand::new(
        None,
        Some("0".into()),
        Duration::from_millis(20),
        vec![],
        true,
        true,
    )
    .unwrap();
    let mut ui = Transcript::new();
    let exit = wait(&cmd, &repo, &mut ui);

    assert_eq!(exit, EXIT_TIMEOUT);
    let streamed = outputs(&ui).join("\n");
    assert!(streamed.contains("test_fail"), "got: {}", streamed);
    assert!(!streamed.contains("test_pass"), "got: {}", streamed);
}

#[test]
fn test_invalid_status_filter_rejected() {
    let result = WaitCommand::new(
        None,
        None,
        Duration::from_secs(5),
        vec!["bogus".into()],
        false,
        false,
    );
    match result {
        Err(e) => assert!(e.message().contains("Unknown status filter")),
        Ok(_) => panic!("expected error for bogus status filter"),
    }
}

#[test]
fn wait_command_name_and_help() {
    let cmd =
        WaitCommand::new(None, None, Duration::from_secs(1), vec![], false, false).unwrap();
    assert_eq!(cmd.name(), "wait");
    assert_eq!(cmd.help(), "Wait for in-progress test runs to complete");
    assert_eq!(cmd.poll_interval, Duration::from_secs(2));
}

#[test]
fn results_are_told_once_while_waiting() {
    let mut repo = Store::new();
    insert_run(&mut repo, "0", vec![TestResult::success("a")]);
    mark_in_progress(&mut repo, "0");
    let cmd =
        WaitCommand::new(None, None, Duration::from_secs(5), vec![], true, false).unwrap();
    let mut p = WaitProgress::new();
    let mut ui = Transcript::new();
    let start = Duration::from_secs(0);
    assert_eq!(cmd.poll(&mut p, &repo, start, &mut ui), None);
    assert_eq!(cmd.poll(&mut p, &repo, start, &mut ui), None);
    assert_eq!(outputs(&ui), vec!["0 [success] a"]);
    let late = Duration::from_secs(5);
    assert_eq!(cmd.poll(&mut p, &repo, late, &mut ui), Some(EXIT_TIMEOUT));
    assert_eq!(errors(&ui), vec!["Timed out after 5s; still running: 0"]);
}
