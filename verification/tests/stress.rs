use inquest::collection::TextMap;
use inquest::commands::run::CliRunOutput;
use inquest::commands::stress::{
    failure_summary, format_iteration_list, format_run_id_list, summarise_run_ids,
    truncate_message, FailureAnalysis, FailureMode, StressCommand, MAX_DETAILS_LINES,
    MAX_MESSAGES_PER_TEST, MAX_MESSAGE_LEN,
};
use inquest::commands::Command;
use inquest::flakiness::{ConcurrencyBreakdown, TestFlakiness};
use inquest::repository::TestStatus::{Failure, Success};
use inquest::repository::{RunId, RunMetadata, TestId, TestResult, TestRun, TestStatus};
use inquest::store::Store;
use inquest::time::Timestamp;
use inquest::ui::{Message, Transcript};

fn outputs(ui: &Transcript) -> Vec<String> {
    ui.messages
        .iter()
        .filter_map(|m| match m {
            Message::Output(s) => Some(s.clone()),
            _ => None,
        })
        .collect()
}

fn insert_run(
    repo: &mut Store,
    run_id: &str,
    results: &[(&str, TestStatus)],
) -> RunId {
    let mut run = TestRun::new(RunId::new(run_id));
    run.timestamp = Timestamp { seconds: 1_000_000_000, nanos: 0 };
    for (test_id, status) in results {
        run.add_result(TestResult {
            test_id: TestId::new(test_id),
            status: *status,
            duration: None,
            message: None,
            details: None,
            tags: vec![],
        });
    }
    repo.insert_test_run(run)
}

#[test]
fn name_and_help() {
    let cmd = StressCommand::new(None);
    assert_eq!(cmd.name(), "stress");
    assert!(!cmd.help().is_empty());
}

#[test]
fn zero_iterations_is_rejected() {
    let mut cmd = StressCommand::new(None);
    cmd.iterations = 0;

    let mut ui = Transcript::new();
    let err = cmd.begin(&mut ui).unwrap_err();
    assert_eq!(err.message(), "stress: --iterations must be at least 1");
}

#[test]
fn summarise_run_ids_isolates_flapping_from_broken_and_stable() {
    let mut repo = Store::new();
    // flap: pass, fail, pass — flaky
    // broken: fail, fail, fail — should be excluded (always fails)
    // stable: pass, pass, pass — excluded by summarise_flakiness (never fails)
    let r0 = insert_run(
        &mut repo,
        "0",
        &[("flap", Success), ("broken", Failure), ("stable", Success)],
    );
    let r1 = insert_run(
        &mut repo,
        "1",
        &[("flap", Failure), ("broken", Failure), ("stable", Success)],
    );
    let r2 = insert_run(
        &mut repo,
        "2",
        &[("flap", Success), ("broken", Failure), ("stable", Success)],
    );

    let (summary, _messages) = summarise_run_ids(&repo, &vec![r0, r1, r2]).unwrap();
    assert_eq!(summary.len(), 1);
    assert_eq!(summary[0].test_id.as_str(), "flap");
    assert_eq!(summary[0].runs, 3);
    assert_eq!(summary[0].failures, 1);
    assert_eq!(summary[0].transitions, 2);
}

#[test]
fn summarise_run_ids_keeps_test_that_appeared_in_a_subset() {
    // Regression: a test that failed in just one of ten stress iterations
    // and didn't appear in the other nine (e.g. it crashed the runner,
    // got sharded out, or was conditionally skipped) used to be silently
    // dropped as "always fails", leaving the user with a misleading
    // "No flaky tests observed, but at least one iteration had failing
    // tests" summary. Such a test is itself suspicious and should still
    // be surfaced.
    let mut repo = Store::new();
    let mut run_ids: Vec<RunId> = Vec::new();
    for i in 0..10 {
        let results: Vec<(&str, TestStatus)> = if i == 4 {
            vec![("anchor", Success), ("ghost", Failure)]
        } else {
            vec![("anchor", Success)]
        };
        run_ids.push(insert_run(&mut repo, &i.to_string(), &results));
    }

    let (summary, _analyses) = summarise_run_ids(&repo, &run_ids).unwrap();
    let ghost = summary
        .iter()
        .find(|s| s.test_id.as_str() == "ghost")
        .expect("ghost should be reported as flaky despite appearing only once");
    assert_eq!(ghost.failures, 1);
    assert_eq!(ghost.runs, 1);
}

#[test]
fn summarise_run_ids_still_drops_consistently_broken_test() {
    // Counter-check for the regression test above: a test that failed in
    // *every* iteration of the stress window is broken, not flaky, and
    // must still be dropped.
    let mut repo = Store::new();
    let run_ids: Vec<RunId> = (0..3)
        .map(|i| insert_run(&mut repo, &i.to_string(), &[("broken", Failure)]))
        .collect();

    let (summary, _analyses) = summarise_run_ids(&repo, &run_ids).unwrap();
    assert!(summary.is_empty(), "broken-in-every-iter must not be flaky");
}

#[test]
fn summarise_run_ids_ignores_other_runs_in_repo() {
    let mut repo = Store::new();
    // An older run that's *not* in our stress window — must not pollute results.
    insert_run(&mut repo, "0", &[("t", Failure)]);
    let r1 = insert_run(&mut repo, "1", &[("t", Success)]);
    let r2 = insert_run(&mut repo, "2", &[("t", Success)]);

    // Inside the stress window t always passed, so it is not flaky.
    let (summary, messages) = summarise_run_ids(&repo, &vec![r1, r2]).unwrap();
    assert!(summary.is_empty());
    assert!(messages.is_empty());
}

#[test]
fn format_run_id_list_contiguous_range() {
    let ids = vec![RunId::new("3"), RunId::new("4"), RunId::new("5")];
    assert_eq!(format_run_id_list(&ids), "3..5");
}

#[test]
fn format_run_id_list_noncontiguous() {
    let ids = vec![RunId::new("3"), RunId::new("5"), RunId::new("7")];
    assert_eq!(format_run_id_list(&ids), "3,5,7");
}

#[test]
fn format_run_id_list_single() {
    let ids = vec![RunId::new("11")];
    assert_eq!(format_run_id_list(&ids), "11");
}

#[test]
fn format_run_id_list_non_numeric_falls_back_to_csv() {
    let ids = vec![RunId::new("abc"), RunId::new("def")];
    assert_eq!(format_run_id_list(&ids), "abc,def");
}

#[test]
fn report_with_flaky_returns_exit_1() {
    let cmd = StressCommand::new(None);
    let mut ui = Transcript::new();
    let flaky = vec![TestFlakiness {
        test_id: TestId::new("flap"),
        runs: 3,
        failures: 1,
        transitions: 2,
    }];
    let code = cmd.report(&vec![RunId::new("0"), RunId::new("1"), RunId::new("2")], &flaky, &TextMap::new(), true, &mut ui);
    assert_eq!(code, 1);
    assert_eq!(
        outputs(&ui),
        vec![
            "\nStress summary (3 iteration(s), runs 0..2):".to_string(),
            "  Flaky tests: 1".to_string(),
            "  fail/runs  flake%  test".to_string(),
            "     1/3    100.0%  flap".to_string(),
            "\nFailure analysis:".to_string(),
        ]
    );
}

#[test]
fn report_without_flaky_but_with_failures() {
    let cmd = StressCommand::new(None);
    let mut ui = Transcript::new();
    let code = cmd.report(&vec![RunId::new("0"), RunId::new("1")], &vec![], &TextMap::new(), true, &mut ui);
    assert_eq!(code, 0);
    assert_eq!(
        outputs(&ui),
        vec![
            "\nStress summary (2 iteration(s), runs 0..1):".to_string(),
            "  No flaky tests observed, but at least one iteration had failing tests \
             (likely a consistently broken test rather than flakiness)."
                .to_string(),
        ]
    );
}

#[test]
fn report_clean_run_returns_exit_0() {
    let cmd = StressCommand::new(None);
    let mut ui = Transcript::new();
    let code = cmd.report(&vec![RunId::new("0"), RunId::new("1")], &vec![], &TextMap::new(), false, &mut ui);
    assert_eq!(code, 0);
    assert_eq!(
        outputs(&ui),
        vec![
            "\nStress summary (2 iteration(s), runs 0..1):".to_string(),
            "  No flaky tests observed.".to_string(),
        ]
    );
}

fn insert_run_with_messages(
    repo: &mut Store,
    run_id: &str,
    results: &[(&str, TestStatus, Option<&str>)],
) -> RunId {
    let mut run = TestRun::new(RunId::new(run_id));
    run.timestamp = Timestamp { seconds: 1_000_000_000, nanos: 0 };
    for (test_id, status, message) in results {
        let owned = message.map(|m| m.to_string());
        run.add_result(TestResult {
            test_id: TestId::new(test_id),
            status: *status,
            duration: None,
            message: owned.clone(),
            details: owned,
            tags: vec![],
        });
    }
    repo.insert_test_run(run)
}

#[test]
fn summarise_run_ids_collects_failure_messages_for_flaky_tests() {
    let mut repo = Store::new();
    let r0 = insert_run_with_messages(
        &mut repo,
        "0",
        &[("flap", Failure, Some("connection refused"))],
    );
    let r1 = insert_run_with_messages(&mut repo, "1", &[("flap", Success, None)]);
    let r2 = insert_run_with_messages(
        &mut repo,
        "2",
        &[("flap", Failure, Some("connection refused"))],
    );
    let r3 = insert_run_with_messages(
        &mut repo,
        "3",
        &[("flap", Failure, Some("timeout after 5s"))],
    );

    let (summary, analyses) = summarise_run_ids(&repo, &vec![r0, r1, r2, r3]).unwrap();
    assert_eq!(summary.len(), 1);
    let analysis = analyses.get("flap").expect("flap analysis");
    let mode_pairs: Vec<(&str, usize)> = analysis
        .modes
        .iter()
        .map(|m| (m.message.as_str(), m.count))
        .collect();
    assert_eq!(
        mode_pairs,
        vec![("connection refused", 2), ("timeout after 5s", 1)]
    );
    assert_eq!(analysis.failing_iterations, vec![1, 3, 4]);
}

#[test]
fn summarise_run_ids_keeps_representative_details() {
    let mut repo = Store::new();
    let r0 = insert_run_with_messages(
        &mut repo,
        "0",
        &[("flap", Failure, Some("AssertionError: 1 != 2"))],
    );
    let r1 = insert_run_with_messages(&mut repo, "1", &[("flap", Success, None)]);

    let (_summary, analyses) = summarise_run_ids(&repo, &vec![r0, r1]).unwrap();
    let analysis = analyses.get("flap").expect("flap analysis");
    assert_eq!(analysis.modes.len(), 1);
    assert_eq!(
        analysis.modes[0].details.as_deref(),
        Some("AssertionError: 1 != 2")
    );
}

#[test]
fn summarise_run_ids_uses_placeholder_for_missing_message() {
    let mut repo = Store::new();
    let r0 = insert_run_with_messages(&mut repo, "0", &[("flap", Failure, None)]);
    let r1 = insert_run_with_messages(&mut repo, "1", &[("flap", Success, None)]);

    let (_summary, analyses) = summarise_run_ids(&repo, &vec![r0, r1]).unwrap();
    let analysis = analyses.get("flap").expect("flap analysis");
    assert_eq!(analysis.modes.len(), 1);
    assert_eq!(analysis.modes[0].message, "(no message)");
}

#[test]
fn summarise_run_ids_records_concurrency_per_iteration() {
    let mut repo = Store::new();
    let r0 = insert_run_with_messages(&mut repo, "0", &[("flap", Success, None)]);
    let r1 = insert_run_with_messages(&mut repo, "1", &[("flap", Failure, Some("race"))]);
    let r2 = insert_run_with_messages(&mut repo, "2", &[("flap", Success, None)]);
    let r3 = insert_run_with_messages(&mut repo, "3", &[("flap", Failure, Some("race"))]);

    // r0 + r2 ran serially, r1 + r3 ran with -j 8.
    for (id, concurrency) in [(&r0, 1), (&r2, 1), (&r1, 8), (&r3, 8)] {
        let metadata = RunMetadata {
            concurrency: Some(concurrency),
            ..Default::default()
        };
        repo.set_run_metadata(id, metadata).unwrap();
    }

    let (summary, analyses) = summarise_run_ids(&repo, &vec![r0, r1, r2, r3]).unwrap();
    assert_eq!(summary.len(), 1);
    let analysis = analyses.get("flap").expect("flap analysis");
    assert_eq!(
        analysis.concurrency,
        ConcurrencyBreakdown {
            serial_failures: 0,
            serial_runs: 2,
            parallel_failures: 2,
            parallel_runs: 2,
            max_parallel_concurrency: Some(8),
            unknown_failures: 0,
            unknown_runs: 0,
        }
    );
}

fn analysis_with(modes: Vec<(&str, usize)>, failing_iters: Vec<usize>) -> FailureAnalysis {
    FailureAnalysis {
        failing_iterations: failing_iters.clone(),
        failing_run_ids: failing_iters
            .iter()
            .map(|i| RunId::new(&(i - 1).to_string()))
            .collect(),
        modes: modes
            .into_iter()
            .map(|(m, c)| FailureMode {
                message: m.to_string(),
                count: c,
                details: None,
            })
            .collect(),
        concurrency: ConcurrencyBreakdown::default(),
    }
}

#[test]
fn report_renders_failure_messages_with_counts() {
    let cmd = StressCommand::new(None);
    let mut ui = Transcript::new();
    let flaky = vec![TestFlakiness {
        test_id: TestId::new("flap"),
        runs: 4,
        failures: 3,
        transitions: 2,
    }];
    let mut analyses = TextMap::new();
    analyses.insert(
        "flap",
        analysis_with(
            vec![("connection refused", 2), ("timeout after 5s", 1)],
            vec![1, 3, 4],
        ),
    );

    let code = cmd.report(&vec![
                RunId::new("0"),
                RunId::new("1"),
                RunId::new("2"),
                RunId::new("3"),
            ], &flaky, &analyses, true, &mut ui);
    assert_eq!(code, 1);
    assert_eq!(
        outputs(&ui),
        vec![
            "\nStress summary (4 iteration(s), runs 0..3):".to_string(),
            "  Flaky tests: 1".to_string(),
            "  fail/runs  flake%  test".to_string(),
            "     3/4     66.7%  flap".to_string(),
            "      [2x] connection refused".to_string(),
            "      [1x] timeout after 5s".to_string(),
            "\nFailure analysis:".to_string(),
            "\n* flap".to_string(),
            "    failure rate: 3/4 iteration(s) (75.0%)".to_string(),
            "    failed in iteration(s): 1,3..4".to_string(),
            "    failing run id(s): 0,2,3".to_string(),
            "    failure mode 1 of 2 (2x): connection refused".to_string(),
            "    failure mode 2 of 2 (1x): timeout after 5s".to_string(),
        ]
    );
}

#[test]
fn report_includes_concurrency_verdict_when_available() {
    let cmd = StressCommand::new(None);
    let mut ui = Transcript::new();
    let flaky = vec![TestFlakiness {
        test_id: TestId::new("flap"),
        runs: 4,
        failures: 2,
        transitions: 2,
    }];
    let mut analysis = analysis_with(vec![("race", 2)], vec![3, 4]);
    analysis.concurrency.record(Some(1), false);
    analysis.concurrency.record(Some(1), false);
    analysis.concurrency.record(Some(8), true);
    analysis.concurrency.record(Some(8), true);
    let mut analyses = TextMap::new();
    analyses.insert(
        "flap", analysis);

    cmd.report(&vec![
            RunId::new("0"),
            RunId::new("1"),
            RunId::new("2"),
            RunId::new("3"),
        ], &flaky, &analyses, true, &mut ui);
    let concurrency_lines: Vec<String> = outputs(&ui)
        .into_iter()
        .filter(|l| l.starts_with("    concurrency:"))
        .collect();
    assert_eq!(
        concurrency_lines,
        vec![
            "    concurrency: fails 2/2 in parallel (max -j 8), 0/2 serially — likely concurrency-related".to_string(),
        ]
    );
}

#[test]
fn report_omits_concurrency_line_with_no_observations() {
    let cmd = StressCommand::new(None);
    let mut ui = Transcript::new();
    let flaky = vec![TestFlakiness {
        test_id: TestId::new("flap"),
        runs: 1,
        failures: 1,
        transitions: 0,
    }];
    let mut analyses = TextMap::new();
    analyses.insert(
        "flap",
        analysis_with(vec![("boom", 1)], vec![1]),
    );

    cmd.report(&vec![RunId::new("0")], &flaky, &analyses, true, &mut ui);
    assert!(
        outputs(&ui).iter().all(|l| !l.starts_with("    concurrency:")),
        "got: {:?}",
        outputs(&ui)
    );
}

#[test]
fn report_flags_test_that_didnt_run_in_every_iteration() {
    let cmd = StressCommand::new(None);
    let mut ui = Transcript::new();
    let flaky = vec![TestFlakiness {
        test_id: TestId::new("ghost"),
        runs: 1,
        failures: 1,
        transitions: 0,
    }];
    let mut analyses = TextMap::new();
    analyses.insert(
        "ghost",
        analysis_with(vec![("boom", 1)], vec![5]),
    );

    let run_ids: Vec<RunId> = (0..10).map(|i| RunId::new(&i.to_string())).collect();
    cmd.report(&run_ids, &flaky, &analyses, true, &mut ui);
    assert_eq!(
        outputs(&ui),
        vec![
            "\nStress summary (10 iteration(s), runs 0..9):".to_string(),
            "  Flaky tests: 1".to_string(),
            "  fail/runs  flake%  test".to_string(),
            "     1/1      0.0%  ghost".to_string(),
            "      [1x] boom".to_string(),
            "\nFailure analysis:".to_string(),
            "\n* ghost".to_string(),
            "    failure rate: 1/1 iteration(s) (100.0%)".to_string(),
            "    note: only appeared in 1 of 10 stress iteration(s) — \
             missing iterations may indicate sharding, ordering, or a \
             prior crash that prevented this test from running."
                .to_string(),
            "    failed in iteration(s): 5".to_string(),
            "    failing run id(s): 4".to_string(),
            "    failure mode 1 of 1 (1x): boom".to_string(),
        ]
    );
}

#[test]
fn report_renders_details_block_for_each_failure_mode() {
    let cmd = StressCommand::new(None);
    let mut ui = Transcript::new();
    let flaky = vec![TestFlakiness {
        test_id: TestId::new("flap"),
        runs: 3,
        failures: 1,
        transitions: 2,
    }];
    let mut analyses = TextMap::new();
    analyses.insert(
        "flap",
        FailureAnalysis {
            failing_iterations: vec![2],
            failing_run_ids: vec![RunId::new("1")],
            modes: vec![FailureMode {
                message: "AssertionError: 1 != 2".to_string(),
                count: 1,
                details: Some(
                    "Traceback (most recent call last):\n  File \"x.py\", line 1\n    assert 1 == 2\nAssertionError: 1 != 2"
                        .to_string(),
                ),
            }],
            concurrency: ConcurrencyBreakdown::default(),
        },
    );

    let code = cmd.report(
        &vec![RunId::new("0"), RunId::new("1"), RunId::new("2")],
        &flaky,
        &analyses,
        true,
        &mut ui,
    );
    assert_eq!(code, 1);
    assert_eq!(
        outputs(&ui),
        vec![
            "\nStress summary (3 iteration(s), runs 0..2):".to_string(),
            "  Flaky tests: 1".to_string(),
            "  fail/runs  flake%  test".to_string(),
            "     1/3    100.0%  flap".to_string(),
            "      [1x] AssertionError: 1 != 2".to_string(),
            "\nFailure analysis:".to_string(),
            "\n* flap".to_string(),
            "    failure rate: 1/3 iteration(s) (33.3%)".to_string(),
            "    failed in iteration(s): 2".to_string(),
            "    failing run id(s): 1".to_string(),
            "    failure mode 1 of 1 (1x): AssertionError: 1 != 2".to_string(),
            "        | Traceback (most recent call last):".to_string(),
            "        |   File \"x.py\", line 1".to_string(),
            "        |     assert 1 == 2".to_string(),
            "        | AssertionError: 1 != 2".to_string(),
        ]
    );
}

#[test]
fn report_truncates_long_details_block() {
    let cmd = StressCommand::new(None);
    let mut ui = Transcript::new();
    let flaky = vec![TestFlakiness {
        test_id: TestId::new("flap"),
        runs: 2,
        failures: 1,
        transitions: 1,
    }];
    let mut analyses = TextMap::new();
    let traceback = (0..MAX_DETAILS_LINES + 5)
        .map(|i| format!("line-{}", i))
        .collect::<Vec<_>>()
        .join("\n");
    analyses.insert(
        "flap",
        FailureAnalysis {
            failing_iterations: vec![1],
            failing_run_ids: vec![RunId::new("0")],
            modes: vec![FailureMode {
                message: "boom".to_string(),
                count: 1,
                details: Some(traceback),
            }],
            concurrency: ConcurrencyBreakdown::default(),
        },
    );

    cmd.report(&vec![RunId::new("0"), RunId::new("1")], &flaky, &analyses, true, &mut ui);
    assert_eq!(
        *outputs(&ui).last().unwrap(),
        "        | ... (5 more line(s) truncated; see `inq log <run-id>` for the full output)"
            .to_string()
    );
}

#[test]
fn report_caps_messages_per_test() {
    let cmd = StressCommand::new(None);
    let mut ui = Transcript::new();
    let flaky = vec![TestFlakiness {
        test_id: TestId::new("flap"),
        runs: 5,
        failures: 5,
        transitions: 0,
    }];
    let mut analyses = TextMap::new();
    let modes: Vec<FailureMode> = (0..MAX_MESSAGES_PER_TEST + 2)
        .map(|i| FailureMode {
            message: format!("msg-{}", i),
            count: 1,
            details: None,
        })
        .collect();
    analyses.insert(
        "flap",
        FailureAnalysis {
            failing_iterations: (1..=modes.len()).collect(),
            failing_run_ids: (0..modes.len())
                .map(|i| RunId::new(&i.to_string()))
                .collect(),
            modes,
            concurrency: ConcurrencyBreakdown::default(),
        },
    );

    let code = cmd.report(&vec![RunId::new("0"), RunId::new("1")], &flaky, &analyses, true, &mut ui);
    assert_eq!(code, 1);
    // The table-only "... and N other distinct message(s)" line is the
    // index entry just before the per-test analysis section begins.
    let table_truncation_idx = outputs(&ui)
        .iter()
        .position(|l| l == "      ... and 2 other distinct message(s)")
        .expect("expected truncation line in table");
    assert_eq!(
        outputs(&ui)[table_truncation_idx + 1],
        "\nFailure analysis:".to_string()
    );
}

#[test]
fn format_iteration_list_collapses_ranges() {
    assert_eq!(format_iteration_list(&vec![1]), "1");
    assert_eq!(format_iteration_list(&vec![1, 2, 3]), "1..3");
    assert_eq!(format_iteration_list(&vec![1, 3, 4, 5, 8]), "1,3..5,8");
    assert_eq!(format_iteration_list(&vec![]), "");
}

#[test]
fn resolve_iteration_concurrency_honours_explicit() {
    let mut cmd = StressCommand::new(None);
    cmd.concurrency = Some(4);
    let mut ui = Transcript::new();
    assert_eq!(cmd.resolve_iteration_concurrency(&mut ui).unwrap(), Some(4));
    assert_eq!(outputs(&ui), Vec::<String>::new());
}

#[test]
fn resolve_iteration_concurrency_explicit_serial_is_silent() {
    let mut cmd = StressCommand::new(None);
    cmd.concurrency = Some(1);
    let mut ui = Transcript::new();
    assert_eq!(cmd.resolve_iteration_concurrency(&mut ui).unwrap(), Some(1));
    assert_eq!(outputs(&ui), Vec::<String>::new());
}

#[test]
fn resolve_iteration_concurrency_auto_detects_when_unset() {
    let cmd = StressCommand::new(None);
    let mut ui = Transcript::new();
    let resolved = cmd.resolve_iteration_concurrency(&mut ui).unwrap();
    let cpus = num_cpus::get();
    assert_eq!(resolved, Some(cpus));
    if cpus > 1 {
        assert_eq!(
            outputs(&ui),
            vec![format!(
                "Stress: running each iteration in parallel across {} CPUs (auto-detected). \
                 Pass `-j N` to set a specific worker count, or `-j 1` to run serially.",
                cpus
            )]
        );
    } else {
        assert_eq!(outputs(&ui), Vec::<String>::new());
    }
}

#[test]
fn failure_summary_prefers_message_then_details_tail() {
    assert_eq!(failure_summary(Some("boom"), Some("ignored")), "boom");
    assert_eq!(
        failure_summary(Some("  "), Some("first\nlast line")),
        "last line"
    );
    assert_eq!(failure_summary(None, Some("only\n   \n  ")), "only");
    assert_eq!(failure_summary(None, None), "(no message)");
}

#[test]
fn truncate_message_collapses_newlines_and_caps_length() {
    let short = truncate_message("hello\n\nworld", 80);
    assert_eq!(short, "hello / world");

    let long = "x".repeat(MAX_MESSAGE_LEN + 50);
    let cut = truncate_message(&long, MAX_MESSAGE_LEN);
    assert!(cut.ends_with("..."));
    assert_eq!(cut.chars().count(), MAX_MESSAGE_LEN + 3);
}

#[test]
fn iterations_are_announced_and_counted() {
    let mut cmd = StressCommand::new(None);
    cmd.iterations = 2;
    cmd.concurrency = Some(1);
    let mut repo = Store::new();
    let r0 = insert_run(&mut repo, "0", &[("flap", Success)]);
    let r1 = insert_run(&mut repo, "1", &[("flap", Failure)]);
    let mut ui = Transcript::new();
    let mut p = cmd.begin(&mut ui).unwrap();
    let run = cmd.next_run(&p, &mut ui);
    assert_eq!(run.concurrency, Some(1));
    let first = CliRunOutput { exit_code: 0, run_id: Some(r0) };
    assert_eq!(cmd.record(&mut p, first, &repo, &mut ui).unwrap(), None);
    let _ = cmd.next_run(&p, &mut ui);
    let second = CliRunOutput { exit_code: 1, run_id: Some(r1) };
    assert_eq!(cmd.record(&mut p, second, &repo, &mut ui).unwrap(), Some(1));
    let lines = outputs(&ui);
    assert_eq!(lines[0], "\n=== Stress iteration 1/2 ===");
    assert_eq!(lines[1], "\n=== Stress iteration 2/2 ===");
    assert_eq!(lines[2], "\nStress summary (2 iteration(s), runs 0..1):");
}
