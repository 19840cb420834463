use inquest::collection::TextMap;
use inquest::commands::web::{
    build_repo_overview, build_tree, closing_event, collect_test_stats, command_line,
    list_profiles, list_runs, progress_event, progress_status_label, run_detail, test_history,
    ProgressStatus, Ratio, RunEvent, StartRunRequest, WebCommand,
};
use inquest::commands::Command;
use inquest::config::file::ConfigFile;
use inquest::error::Error;
use inquest::repository::{RunId, TestId, TestResult, TestRun};
use inquest::store::Store;
use inquest::time::Duration;
use inquest::ui::{Message, Transcript};

fn outputs(ui: &Transcript) -> Vec<String> {
    ui.messages
        .iter()
        .filter_map(|m| match m {
            Message::Output(s) => Some(s.clone()),
            _ => None,
        })
        .collect()
}

fn two_runs() -> Store {
    let mut repo = Store::new();
    let mut run1 = TestRun::new(RunId::new("0"));
    run1.add_result(
        TestResult::success("a.b.fast").with_duration(Duration::from_millis(5)),
    );
    run1.add_result(
        TestResult::success("a.b.slow").with_duration(Duration::from_millis(500)),
    );
    repo.insert_test_run(run1);

    let mut run2 = TestRun::new(RunId::new("1"));
    run2.add_result(
        TestResult::success("a.b.fast").with_duration(Duration::from_millis(6)),
    );
    run2.add_result(TestResult::failure("a.b.slow", "boom"));
    repo.insert_test_run(run2);
    repo
}

fn request() -> StartRunRequest {
    StartRunRequest {
        test_ids: vec![],
        filters: vec![],
        failing: false,
        parallel: None,
        profile: None,
        order: None,
        isolated: false,
        partial: false,
        until_failure: false,
        max_iterations: None,
        starting_with: vec![],
        tags: vec![],
        test_timeout: None,
        max_duration: None,
        no_output_timeout: None,
        test_args: vec![],
    }
}

#[test]
fn collect_test_stats_with_runs() {
    let mut repo = Store::new();
    let mut run = TestRun::new(RunId::new("0"));
    run.add_result(
        TestResult::success("a.b.test_one").with_duration(Duration::from_millis(10)),
    );
    run.add_result(TestResult::failure("a.b.test_two", "boom"));
    repo.insert_test_run(run);

    let resp = collect_test_stats(&repo, None, None);
    assert_eq!(resp.total_runs_in_repo, 1);
    assert_eq!(resp.tests.len(), 2);

    let one = resp
        .tests
        .iter()
        .find(|t| t.test_id == "a.b.test_one")
        .unwrap();
    assert_eq!(one.runs, 1);
    assert_eq!(one.failures, 0);
    assert_eq!(one.last_status.map(|s| s.text()), Some("success"));

    let two = resp
        .tests
        .iter()
        .find(|t| t.test_id == "a.b.test_two")
        .unwrap();
    assert_eq!(two.runs, 1);
    assert_eq!(two.failures, 1);
    assert_eq!(two.last_status.map(|s| s.text()), Some("failure"));
}

#[test]
fn stats_tell_when_a_test_was_last_seen() {
    let mut repo = two_runs();
    repo.insert_test_run(TestRun::new(RunId::new("2")));
    let found = vec![TestId::new("fresh"), TestId::new("a.b.fast")];
    let resp = collect_test_stats(&repo, Some(&found), Some("^(.*)$".to_string()));
    assert!(resp.discovery_run);
    assert_eq!(resp.group_regex, Some("^(.*)$".to_string()));
    let names: Vec<&str> = resp.tests.iter().map(|t| t.test_id.as_str()).collect();
    assert_eq!(names, vec!["a.b.fast", "a.b.slow", "fresh"]);
    let fast = &resp.tests[0];
    assert!(fast.discovered);
    assert_eq!(fast.runs_since_seen, 1);
    assert_eq!(fast.last_run_id, Some("1".to_string()));
    let mean = fast.avg_duration.unwrap();
    assert_eq!(mean.total, Duration::from_millis(11));
    assert_eq!(mean.count, 2);
    let fresh = &resp.tests[2];
    assert_eq!(fresh.runs, 0);
    assert_eq!(fresh.runs_since_seen, 3);
    assert!(fresh.last_status.is_none());
    assert!(fresh.avg_duration.is_none());
}

#[test]
fn progress_status_labels() {
    assert_eq!(progress_status_label(ProgressStatus::Success), "success");
    assert_eq!(progress_status_label(ProgressStatus::Failed), "failure");
    assert_eq!(progress_status_label(ProgressStatus::Skipped), "skip");
}

#[test]
fn build_repo_overview_aggregates_runs() {
    let repo = two_runs();
    let overview = build_repo_overview(&repo);
    assert_eq!(overview.total_runs, 2);
    assert_eq!(overview.total_tests_known, 2);
    assert_eq!(overview.last_run_total, Some(2));
    assert_eq!(overview.last_run_failures, Some(1));
    // One failure out of four results.
    assert_eq!(
        overview.recent_failure_rate,
        Some(Ratio { part: 1, whole: 4 })
    );
    // a.b.slow has the higher mean duration so it should head the list.
    assert_eq!(overview.slowest.first().unwrap().test_id, "a.b.slow");
    // a.b.slow flapped (success to failure) so it shows as flakiest.
    assert_eq!(overview.flakiest.first().unwrap().test_id, "a.b.slow");
    assert_eq!(overview.flakiest[0].transitions, Some(1));
    assert_eq!(overview.last_run_id, Some("1".to_string()));
    assert!(overview.avg_run_duration.is_none());
    let mut timed = two_runs();
    timed.runs[0].metadata.duration = Some(Duration::from_nanos(5));
    timed.runs[1].metadata.duration = Some(Duration::from_nanos(8));
    let mean = build_repo_overview(&timed).avg_run_duration.unwrap();
    let (num, den) = mean.to_words().unwrap();
    assert_eq!(num as f64 / den as f64, (0.0 + 5e-9 + 8e-9) / 2.0);
    let empty = build_repo_overview(&Store::new());
    assert_eq!(empty.total_runs, 0);
    assert!(empty.recent_failure_rate.is_none());
    assert!(empty.last_run_id.is_none());
}

#[test]
fn test_history_endpoint_returns_per_test_results() {
    let mut repo = Store::new();
    let mut run1 = TestRun::new(RunId::new("0"));
    run1.add_result(
        TestResult::success("pkg::mod::flaky").with_duration(Duration::from_millis(15)),
    );
    repo.insert_test_run(run1);
    let mut run2 = TestRun::new(RunId::new("1"));
    run2.add_result(TestResult::failure("pkg::mod::flaky", "boom"));
    repo.insert_test_run(run2);

    let entries = test_history(&repo, "pkg::mod::flaky");
    assert_eq!(entries.len(), 2);
    // Newest-first ordering: run "1" (the failing one) should come first.
    assert_eq!(entries[0].stored.run.id.as_str(), "1");
    assert_eq!(entries[0].result.status.text(), "failure");
    assert_eq!(entries[1].stored.run.id.as_str(), "0");
    assert_eq!(entries[1].result.status.text(), "success");
    assert!(test_history(&repo, "other").is_empty());
}

#[test]
fn run_detail_surfaces_failure_attachments_and_breakdown() {
    let mut repo = Store::new();
    let mut run = TestRun::new(RunId::new("0"));
    run.add_result(TestResult::success("a::pass").with_duration(Duration::from_millis(8)));
    run.add_result(TestResult::skip("a::skipped"));
    run.add_result(
        TestResult::failure("a::boom", "assertion failed: 1 == 2")
            .with_details("traceback line 1\ntraceback line 2")
            .with_tag("worker-7"),
    );
    repo.insert_test_run(run);

    let detail = run_detail(&repo, "0").unwrap();
    assert_eq!(detail.successes, 1);
    assert_eq!(detail.failures, 1);
    assert_eq!(detail.skipped, 1);
    assert_eq!(detail.errors, 0);
    assert_eq!(detail.total, 3);
    assert_eq!(detail.mean_test.unwrap().total, Duration::from_millis(8));
    assert_eq!(detail.slowest_test, Some(Duration::from_millis(8)));

    let results = detail.stored.run.results.entries();
    let boom = results.iter().find(|r| r.test_id.as_str() == "a::boom").unwrap();
    assert_eq!(boom.status.text(), "failure");
    assert!(boom.details.as_deref().unwrap_or("").contains("traceback"));
    let pass = results.iter().find(|r| r.test_id.as_str() == "a::pass").unwrap();
    assert_eq!(pass.status.text(), "success");
    assert!(pass.details.is_none());
    assert_eq!(
        run_detail(&repo, "9").unwrap_err().message(),
        "Test run not found: 9"
    );
}

#[test]
fn profiles_endpoint_returns_empty_when_no_config() {
    let parsed = list_profiles(None);
    assert_eq!(parsed.default_profile, None);
    assert_eq!(parsed.profiles, Vec::<String>::new());
    let mut files = TextMap::new();
    let text = "test_command = \"x\"\ndefault_profile = \"b\"\n[profiles.b]\n[profiles.a]\n";
    files.insert("inquest.toml", Ok(text.to_string()));
    let (config, _) = ConfigFile::find_in_directory(".", &files).unwrap();
    let parsed = list_profiles(Some(&config));
    assert_eq!(parsed.default_profile, Some("b".to_string()));
    assert_eq!(parsed.profiles, vec!["a", "b"]);
}

#[test]
fn runs_are_listed_latest_first() {
    let repo = two_runs();
    let runs = list_runs(&repo);
    assert_eq!(runs.len(), 2);
    assert_eq!(runs[0].stored.run.id.as_str(), "1");
    assert_eq!(runs[0].failures, 1);
    assert_eq!(runs[1].total, 2);
}

#[test]
fn trees_group_tests() {
    let repo = two_runs();
    let found = vec![TestId::new("c.d")];
    let tree = build_tree(&repo, &None, &None, &found).unwrap();
    assert_eq!(tree.groups.len(), 1);
    assert_eq!(tree.groups[0].key, "");
    assert_eq!(tree.groups[0].tests, vec!["a.b.fast", "a.b.slow", "c.d"]);
    assert!(tree.regex_used.is_none());
    let asked = Some(r"^([^.]+)\.".to_string());
    let tree = build_tree(&repo, &asked, &None, &found).unwrap();
    let keys: Vec<&str> = tree.groups.iter().map(|g| g.key.as_str()).collect();
    assert_eq!(keys, vec!["a", "c"]);
    let configured = Some("(".to_string());
    let err = build_tree(&repo, &Some(String::new()), &configured, &found).unwrap_err();
    assert!(err.starts_with("invalid group regex: "), "got: {}", err);
}

#[test]
fn run_requests_become_arguments() {
    let plain = request();
    assert_eq!(plain.arguments("/p", "list"), vec!["-C", "/p", "run", "--subunit"]);
    assert_eq!(plain.list_text(), None);
    let full = StartRunRequest {
        test_ids: vec!["t1".to_string(), "t2".to_string()],
        filters: vec!["^a".to_string()],
        failing: true,
        parallel: Some(4),
        profile: Some("ci".to_string()),
        order: Some("auto".to_string()),
        isolated: true,
        partial: true,
        until_failure: true,
        max_iterations: Some(9),
        starting_with: vec!["x".to_string(), "y".to_string()],
        tags: vec!["!slow".to_string()],
        test_timeout: Some("5m".to_string()),
        max_duration: Some("1h".to_string()),
        no_output_timeout: Some("30s".to_string()),
        test_args: vec!["-v".to_string()],
    };
    let args = full.arguments("/p", "/tmp/list");
    assert_eq!(
        command_line("inq", &args),
        "inq -C /p --profile ci run --subunit --failing --isolated --partial --until-failure \
         --max-iterations 9 -j 4 --order auto --test-timeout 5m --max-duration 1h \
         --no-output-timeout 30s -s x -s y --tag !slow --load-list /tmp/list ^a -- -v"
    );
    assert_eq!(full.list_text(), Some("t1\nt2\n".to_string()));
    let capped = StartRunRequest { max_iterations: Some(3), ..request() };
    assert_eq!(capped.arguments("/p", "").len(), 4);
}

#[test]
fn progress_becomes_events() {
    assert!(matches!(
        progress_event("t", ProgressStatus::InProgress),
        RunEvent::Started { test_id } if test_id == "t"
    ));
    assert!(matches!(
        progress_event("t", ProgressStatus::UnexpectedSuccess),
        RunEvent::Completed { status, duration: None, .. } if status == "uxsuccess"
    ));
    assert!(matches!(closing_event(Ok(None)), RunEvent::Finished { exit_code: -1 }));
    assert!(matches!(closing_event(Ok(Some(2))), RunEvent::Finished { exit_code: 2 }));
    assert!(matches!(
        closing_event(Err(Error::Other("no".to_string()))),
        RunEvent::Error { message } if message == "no"
    ));
}

#[test]
fn web_command_says_where_it_listens() {
    let cmd = WebCommand::new(None, "127.0.0.1".to_string(), 8080, false);
    assert_eq!(cmd.name(), "web");
    let mut ui = Transcript::new();
    assert_eq!(cmd.announce(&mut ui), "127.0.0.1:8080");
    assert_eq!(
        outputs(&ui),
        vec![
            "inq web listening on http://127.0.0.1:8080/",
            "Press Ctrl-C to stop.",
        ]
    );
}
