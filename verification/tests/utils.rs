use inquest::collection::TextMap;
use inquest::commands::bisect::ProcessOutput;
use inquest::commands::utils::{
    has_config_file, open_or_init_repository, persist_and_display_run, resolve_run_id,
    run_metadata, warn_slow_tests, GitState, RunOutput,
};
use inquest::error::{Error, Result};
use inquest::repository::{RunId, TestResult, TestRun};
use inquest::store::Store;
use inquest::time::{Duration, Timestamp};
use inquest::ui::{Message, Transcript};

fn outputs(ui: &Transcript) -> Vec<String> {
    ui.messages
        .iter()
        .filter_map(|m| match m {
            Message::Output(s) => Some(s.clone()),
            _ => None,
        })
        .collect()
}

fn missing() -> Result<()> {
    Err(Error::RepositoryNotFound("/p/.inquest".to_string()))
}

fn git() -> GitState {
    let out = |stdout: &str| ProcessOutput {
        code: Some(0),
        stdout: stdout.to_string(),
        stderr: String::new(),
    };
    GitState {
        head: Some(out("abc\n")),
        status: Some(out("")),
    }
}

#[test]
fn test_has_config_file_none() {
    assert!(!has_config_file(&vec![]));
}

#[test]
fn test_has_config_file_inquest_toml() {
    assert!(has_config_file(&vec!["inquest.toml".to_string()]));
}

#[test]
fn test_has_config_file_testr_conf() {
    assert!(has_config_file(&vec![".testr.conf".to_string()]));
}

#[test]
fn test_open_or_init_auto_creates_when_config_exists() {
    let mut ui = Transcript::new();
    let configured = has_config_file(&vec!["inquest.toml".to_string()]);
    let create = open_or_init_repository(Some("/p"), false, missing(), configured, &mut ui);
    assert_eq!(create.unwrap(), true);
    let output = outputs(&ui).join("\n");
    assert!(output.contains("Creating repository"), "got: {}", output);
    assert_eq!(output, "Creating repository in /p/.inquest");
}

#[test]
fn test_open_or_init_no_config_no_force() {
    let mut ui = Transcript::new();
    let create = open_or_init_repository(None, false, missing(), false, &mut ui);
    assert!(create.is_err());
    assert!(outputs(&ui).is_empty());
}

#[test]
fn test_open_or_init_force_init_without_config() {
    let mut ui = Transcript::new();
    let create = open_or_init_repository(None, true, missing(), false, &mut ui);
    assert_eq!(create.unwrap(), true);
    let mut ui = Transcript::new();
    let create = open_or_init_repository(None, true, Ok(()), false, &mut ui);
    assert_eq!(create.unwrap(), false);
    assert!(outputs(&ui).is_empty());
}

#[test]
fn test_resolve_run_id_none() {
    let mut repo = Store::new();
    let mut run = TestRun::new(RunId::new("0"));
    run.timestamp = Timestamp { seconds: 1000000000, nanos: 0 };
    run.add_result(TestResult::success("test1"));
    repo.insert_test_run(run);

    assert_eq!(resolve_run_id(&repo, None).unwrap().as_str(), "0");
}

#[test]
fn test_resolve_run_id_positive() {
    let repo = Store::new();

    assert_eq!(resolve_run_id(&repo, Some("42")).unwrap().as_str(), "42");
}

#[test]
fn test_resolve_run_id_negative() {
    let mut repo = Store::new();

    for i in 0..3 {
        let mut run =
            TestRun::new(RunId::new(&i.to_string()));
        run.timestamp = Timestamp { seconds: 1000000000 + i, nanos: 0 };
        run.add_result(TestResult::success("test1"));
        repo.insert_test_run(run);
    }

    assert_eq!(resolve_run_id(&repo, Some("-1")).unwrap().as_str(), "2");
    assert_eq!(resolve_run_id(&repo, Some("-2")).unwrap().as_str(), "1");
    assert_eq!(resolve_run_id(&repo, Some("-3")).unwrap().as_str(), "0");
}

#[test]
fn test_resolve_run_id_negative_out_of_range() {
    let mut repo = Store::new();

    let mut run = TestRun::new(RunId::new("0"));
    run.timestamp = Timestamp { seconds: 1000000000, nanos: 0 };
    run.add_result(TestResult::success("test1"));
    repo.insert_test_run(run);

    assert!(resolve_run_id(&repo, Some("-2")).is_err());
}

#[test]
fn test_resolve_run_id_negative_zero() {
    let mut repo = Store::new();

    let mut run = TestRun::new(RunId::new("0"));
    run.timestamp = Timestamp { seconds: 1000000000, nanos: 0 };
    run.add_result(TestResult::success("test1"));
    repo.insert_test_run(run);

    assert!(resolve_run_id(&repo, Some("-0")).is_err());
}

#[test]
fn test_warn_slow_tests_no_history() {
    let mut ui = Transcript::new();
    let run = TestRun::new(RunId::new("0"));
    let historical = TextMap::new();
    warn_slow_tests(&mut ui, &run, &historical);
    assert!(outputs(&ui).is_empty());
}

#[test]
fn test_warn_slow_tests_no_slow_tests() {
    let mut ui = Transcript::new();
    let mut run = TestRun::new(RunId::new("0"));
    run.add_result(
        TestResult::success("test1")
            .with_duration(Duration::from_secs(1)),
    );
    let mut historical = TextMap::new();
    historical.insert(
        "test1",
        Duration::from_secs(1),
    );
    warn_slow_tests(&mut ui, &run, &historical);
    assert!(outputs(&ui).is_empty());
}

#[test]
fn test_warn_slow_tests_detects_slow_test() {
    let mut ui = Transcript::new();
    let mut run = TestRun::new(RunId::new("0"));
    // Test took 10s but historical is 1s (10x slower, above 3x threshold)
    run.add_result(
        TestResult::success("slow_test")
            .with_duration(Duration::from_secs(10)),
    );
    let mut historical = TextMap::new();
    historical.insert(
        "slow_test",
        Duration::from_secs(1),
    );
    warn_slow_tests(&mut ui, &run, &historical);
    assert!(!outputs(&ui).is_empty());
    let output = outputs(&ui).join("\n");
    assert!(output.contains("slow_test"), "got: {}", output);
    assert!(output.contains("slower"), "got: {}", output);
}

#[test]
fn test_persist_and_display_run_success() {
    let mut repo = Store::new();

    // Insert an initial run so get_latest_run works
    let mut initial_run = TestRun::new(RunId::new("0"));
    initial_run.timestamp = Timestamp { seconds: 1000000000, nanos: 0 };
    initial_run.add_result(TestResult::success("test1"));
    repo.insert_test_run(initial_run);

    let mut results = Vec::new();
    results.push(TestResult::success("test1")
            .with_duration(Duration::from_secs(1)));

    let output = RunOutput {
        run_id: RunId::new("1"),
        results,
        any_command_failed: false,
        duration: Duration::from_secs(2),
        test_command: "echo test".to_string(),
        concurrency: 1,
    };

    let mut ui = Transcript::new();
    let historical = TextMap::new();
    let ended = Timestamp { seconds: 1_000_000_001, nanos: 0 };
    let (exit_code, run_id) = persist_and_display_run(
        &mut ui, &mut repo, output, false, &historical, &git(), ended,
    );

    assert_eq!(exit_code, 0);
    assert_eq!(run_id.as_str(), "1");
    let ui_text = outputs(&ui).join("\n");
    assert!(ui_text.contains("Passed:  1"), "got: {}", ui_text);
}

#[test]
fn test_persist_and_display_run_with_failures() {
    let mut repo = Store::new();

    let mut results = Vec::new();
    results.push(TestResult::success("test_pass"));
    results.push(TestResult::failure("test_fail", "assertion error"));

    let output = RunOutput {
        run_id: RunId::new("0"),
        results,
        any_command_failed: false,
        duration: Duration::from_secs(3),
        test_command: "cargo test".to_string(),
        concurrency: 1,
    };

    let mut ui = Transcript::new();
    let historical = TextMap::new();
    let ended = Timestamp { seconds: 1_000_000_001, nanos: 0 };
    let (exit_code, run_id) = persist_and_display_run(
        &mut ui, &mut repo, output, false, &historical, &git(), ended,
    );

    assert_eq!(exit_code, 1);
    assert_eq!(run_id.as_str(), "0");
    let ui_text = outputs(&ui).join("\n");
    assert!(ui_text.contains("Failed:  1"), "got: {}", ui_text);

    // Verify failing tests were persisted
    let failing = &repo.failing;
    assert_eq!(failing.len(), 1);
    assert_eq!(failing[0].as_str(), "test_fail");
}

#[test]
fn slow_tests_are_told_slowest_first() {
    let mut run = TestRun::new(RunId::new("0"));
    run.add_result(TestResult::success("a").with_duration(Duration::from_millis(3_100)));
    run.add_result(TestResult::success("b").with_duration(Duration::from_secs(10)));
    run.add_result(TestResult::success("c").with_duration(Duration::from_secs(3)));
    run.add_result(TestResult::success("new").with_duration(Duration::from_secs(99)));
    let mut times = TextMap::new();
    for name in ["a", "b", "c"] {
        times.insert(name, Duration::from_secs(1));
    }
    let mut ui = Transcript::new();
    warn_slow_tests(&mut ui, &run, &times);
    assert_eq!(
        outputs(&ui),
        vec![
            "\n  2 test(s) ran significantly slower than historical average (3x threshold):",
            "    b: 10.0s (was 1.0s, 10.0x slower)",
            "    a: 3.1s (was 1.0s, 3.1x slower)",
        ]
    );
}

#[test]
fn very_fast_tests_are_not_slow() {
    let mut run = TestRun::new(RunId::new("0"));
    run.add_result(TestResult::success("a").with_duration(Duration::from_nanos(1_999_999)));
    run.add_result(TestResult::success("b").with_duration(Duration::from_millis(2)));
    let mut times = TextMap::new();
    times.insert("a", Duration::from_nanos(1));
    times.insert("b", Duration::from_nanos(0));
    let mut ui = Transcript::new();
    warn_slow_tests(&mut ui, &run, &times);
    let lines = outputs(&ui);
    assert_eq!(lines.len(), 2);
    assert_eq!(lines[1], "    b: 0.0s (was 0.0s, infx slower)");
}

#[test]
fn metadata_comes_from_git() {
    let m = run_metadata(&git(), "make test", 3, Duration::from_secs(7), 1);
    assert_eq!(m.git_commit, Some("abc".to_string()));
    assert_eq!(m.git_dirty, Some(false));
    assert_eq!(m.command, Some("make test".to_string()));
    assert_eq!(m.concurrency, Some(3));
    assert_eq!(m.duration, Some(Duration::from_secs(7)));
    assert_eq!(m.exit_code, Some(1));
    let none = GitState { head: None, status: None };
    let m = run_metadata(&none, "x", 1, Duration::from_secs(1), 0);
    assert_eq!(m.git_commit, None);
    assert_eq!(m.git_dirty, None);
}

#[test]
fn partial_runs_keep_other_failures() {
    let mut repo = Store::new();
    let mut run = TestRun::new(RunId::new("0"));
    run.add_result(TestResult::failure("a", "x"));
    run.add_result(TestResult::failure("b", "x"));
    repo.insert_test_run(run);
    let output = RunOutput {
        run_id: RunId::new("1"),
        results: vec![TestResult::success("a").with_duration(Duration::from_secs(4))],
        any_command_failed: true,
        duration: Duration::from_secs(5),
        test_command: "t".to_string(),
        concurrency: 2,
    };
    let mut ui = Transcript::new();
    let ended = Timestamp { seconds: 5, nanos: 0 };
    let times = TextMap::new();
    let (code, _) =
        persist_and_display_run(&mut ui, &mut repo, output, true, &times, &git(), ended);
    assert_eq!(code, 1);
    let failing: Vec<&str> = repo.failing.iter().map(|t| t.as_str()).collect();
    assert_eq!(failing, vec!["b"]);
    assert_eq!(repo.count(), 2);
    assert_eq!(repo.runs[1].metadata.concurrency, Some(2));
    assert_eq!(*repo.times.get("a").unwrap(), Duration::from_secs(4));
    assert_eq!(
        outputs(&ui),
        vec!["\nTest run 1:", "  Total:   1", "  Passed:  1", "  Failed:  0"]
    );
}

#[test]
fn slowness_is_a_binary_fraction() {
    for (now, usual) in [(325u64, 100u64), (3_500, 1_000), (12_345, 678), (1_001, 7), (35, 10)] {
        let mut run = TestRun::new(RunId::new("0"));
        run.add_result(TestResult::success("a").with_duration(Duration::from_millis(now)));
        let mut times = TextMap::new();
        times.insert("a", Duration::from_millis(usual));
        let mut ui = Transcript::new();
        warn_slow_tests(&mut ui, &run, &times);
        let d = std::time::Duration::from_millis(now).as_secs_f64();
        let u = std::time::Duration::from_millis(usual).as_secs_f64();
        assert_eq!(
            outputs(&ui)[1],
            format!("    a: {:.1}s (was {:.1}s, {:.1}x slower)", d, u, d / u)
        );
    }
}
