use inquest::collection::TextMap;
use inquest::commands::ci::{
    collect_recent_duration_avg, collect_test_history, default_ci_order, emit_ci_output,
    write_github_output, CiAction, CiCommand, CiEvent, Retries,
};
use inquest::commands::ci_report::{
    filter_annotations, format_duration_human, format_failure_groups, format_flaky_warnings,
    format_group_block, format_group_block_with, format_history_hint, format_runtime_line,
    format_step_outputs, format_step_summary, sanitize_gitlab_section_name, truncate_details,
    write_details_block, write_slowest_tests_block, CiFormat, TestHistory,
    SUMMARY_DETAILS_MAX_LINES,
};
use inquest::commands::export::{export_junit, format_error_annotation};
use inquest::commands::run::ExecutionMode;
use inquest::commands::Command;
use inquest::ordering::TestOrder;
use inquest::repository::{RunId, RunMetadata, TestId, TestResult, TestRun};
use inquest::store::Store;
use inquest::time::{seconds_with_millis, seconds_with_tenths, Duration, Timestamp};
use inquest::ui::{Message, Transcript};

fn outputs(ui: &Transcript) -> Vec<String> {
    ui.messages
        .iter()
        .filter_map(|m| match m {
            Message::Output(s) => Some(s.clone()),
            _ => None,
        })
        .collect()
}

fn env(pairs: &[(&str, &str)]) -> TextMap<String> {
    let mut e = TextMap::new();
    for (k, v) in pairs {
        e.insert(k, v.to_string());
    }
    e
}

#[test]
fn ci_format_resolve_detects_github() {
    let e = env(&[("GITHUB_ACTIONS", "true")]);
    assert_eq!(CiFormat::Auto.resolve(&e), CiFormat::Github);
}

#[test]
fn ci_format_resolve_detects_gitlab() {
    let e = env(&[("GITLAB_CI", "true")]);
    assert_eq!(CiFormat::Auto.resolve(&e), CiFormat::Gitlab);
}

#[test]
fn ci_format_resolve_falls_back_to_plain() {
    let e = env(&[]);
    assert_eq!(CiFormat::Auto.resolve(&e), CiFormat::Plain);
}

#[test]
fn ci_format_resolve_passes_through_explicit() {
    let e = env(&[("GITHUB_ACTIONS", "true")]);
    assert_eq!(CiFormat::Plain.resolve(&e), CiFormat::Plain);
}

#[test]
fn ci_format_resolve_detects_forgejo() {
    let e = env(&[("FORGEJO_ACTIONS", "true")]);
    assert_eq!(CiFormat::Auto.resolve(&e), CiFormat::Forgejo);
}

#[test]
fn ci_format_resolve_prefers_forgejo_over_github_when_both_set() {
    // Forgejo Actions sets BOTH `FORGEJO_ACTIONS` and `GITHUB_ACTIONS`
    // for GitHub-compatibility. We must classify as Forgejo so we don't
    // emit `::group::` / `::error::` markers that the Forgejo runner
    // would render as literal log text.
    let e = env(&[("FORGEJO_ACTIONS", "true"), ("GITHUB_ACTIONS", "true")]);
    assert_eq!(CiFormat::Auto.resolve(&e), CiFormat::Forgejo);
}

#[test]
fn ci_format_resolve_detects_woodpecker() {
    // Woodpecker uses `CI=woodpecker` rather than a dedicated flag.
    let e = env(&[("CI", "woodpecker")]);
    assert_eq!(CiFormat::Auto.resolve(&e), CiFormat::Woodpecker);
}

#[test]
fn ci_format_resolve_generic_ci_true_falls_back_to_plain() {
    // Plenty of providers set `CI=true` (the generic convention); we
    // only treat the `woodpecker` value as a positive identification.
    let e = env(&[("CI", "true")]);
    assert_eq!(CiFormat::Auto.resolve(&e), CiFormat::Plain);
}

#[test]
fn ci_format_from_str() {
    assert_eq!("github".parse::<CiFormat>().unwrap(), CiFormat::Github);
    assert_eq!("AUTO".parse::<CiFormat>().unwrap(), CiFormat::Auto);
    assert_eq!("plain".parse::<CiFormat>().unwrap(), CiFormat::Plain);
    assert_eq!("forgejo".parse::<CiFormat>().unwrap(), CiFormat::Forgejo);
    // "codeberg" and "gitea" are accepted as aliases for the same
    // underlying runner (Codeberg uses Forgejo; Gitea Actions is the
    // upstream Forgejo Actions started from).
    assert_eq!("codeberg".parse::<CiFormat>().unwrap(), CiFormat::Forgejo);
    assert_eq!("gitea".parse::<CiFormat>().unwrap(), CiFormat::Forgejo);
    assert_eq!(
        "woodpecker".parse::<CiFormat>().unwrap(),
        CiFormat::Woodpecker
    );
    assert!("xml".parse::<CiFormat>().is_err());
}

fn make_run() -> TestRun {
    let mut run = TestRun::new(RunId::new("0"));
    run.timestamp = Timestamp { seconds: 1_000_000_000, nanos: 0 };
    run.add_result(TestResult::success("tests.a"));
    run.add_result(
        TestResult::failure("tests.b", "boom")
            .with_details("File \"tests/b.py\", line 7, in test\n    raise AssertionError"),
    );
    run.add_result(TestResult::error("tests.c", "timeout"));
    run.add_result(TestResult::skip("tests.d"));
    run
}

#[test]
fn failure_groups_emits_one_block_per_failure_for_github() {
    let run = make_run();
    let out = format_failure_groups(&run, None, CiFormat::Github);
    let expected = "::group::tests.b\n\
                    boom\n\
                    File \"tests/b.py\", line 7, in test\n    \
                    raise AssertionError\n\
                    ::endgroup::\n\
                    ::group::tests.c\n\
                    timeout\n\
                    ::endgroup::\n";
    assert_eq!(out, expected);
}

#[test]
fn flaky_warnings_emit_warning_annotations() {
    let run = make_run();
    let flaky = vec![TestId::new("tests.b")];
    let out = format_flaky_warnings(&run, &flaky);
    assert_eq!(
        out,
        "::warning file=tests/b.py,line=7,title=Flaky: tests.b::boom (passed on retry)\n"
    );
}

#[test]
fn flaky_warnings_empty_when_no_flakes() {
    let run = make_run();
    let out = format_flaky_warnings(&run, &vec![]);
    assert_eq!(out, "");
}

/// Traceback block that appears under `tests.b` in the make_run fixture:
/// two indented lines wrapped in a `<details>`+code fence, matching what
/// `write_details_block` emits.
const TESTS_B_DETAILS: &str = "  <details><summary>traceback</summary>\n\n  ```\n  File \"tests/b.py\", line 7, in test\n      raise AssertionError\n  ```\n\n  </details>\n";

#[test]
fn step_summary_counts_and_lists_failures() {
    let run = make_run();
    // No per-test durations in the fixture, so no "Slowest tests" block;
    // `None` baseline suppresses the vs-history comparison.
    let summary = format_step_summary(
        &run,
        &vec![],
        &TextMap::new(),
        Duration::from_millis(2500),
        None,
    );
    // total=4, passed=1, failed=1, errored=1, skipped=1, flaky=0
    let expected = format!(
        "## Test results\n\
         \n\
         | Total | Passed | Failed | Errored | Skipped | Flaky |\n\
         |------:|-------:|-------:|--------:|--------:|------:|\n\
         | 4 | 1 | 1 | 1 | 1 | 0 |\n\
         \n\
         **Runtime:** 2.50s\n\
         \n\
         <details><summary>Failing tests (2)</summary>\n\
         \n\
         - `tests.b` — boom\n\
         {TESTS_B_DETAILS}\
         - `tests.c` — timeout\n\
         \n\
         </details>\n"
    );
    assert_eq!(summary, expected);
}

#[test]
fn step_summary_separates_flakes_from_hard_failures() {
    let run = make_run();
    let flaky = vec![TestId::new("tests.b")];
    let summary = format_step_summary(
        &run,
        &flaky,
        &TextMap::new(),
        Duration::from_millis(2500),
        None,
    );
    // tests.b is now flaky, so failing list shows only tests.c, and
    // there's a separate flaky-tests block at the end.
    let expected = format!(
        "## Test results\n\
         \n\
         | Total | Passed | Failed | Errored | Skipped | Flaky |\n\
         |------:|-------:|-------:|--------:|--------:|------:|\n\
         | 4 | 1 | 1 | 1 | 1 | 1 |\n\
         \n\
         **Runtime:** 2.50s\n\
         \n\
         <details><summary>Failing tests (1)</summary>\n\
         \n\
         - `tests.c` — timeout\n\
         \n\
         </details>\n\
         \n\
         <details><summary>Flaky tests (1)</summary>\n\
         \n\
         - `tests.b` (passed on retry)\n\
         {TESTS_B_DETAILS}\
         \n\
         </details>\n"
    );
    assert_eq!(summary, expected);
}

#[test]
fn format_duration_human_scales_by_magnitude() {
    assert_eq!(format_duration_human(Duration::from_millis(789)), "789ms");
    assert_eq!(
        format_duration_human(Duration::from_millis(4567)),
        "4.57s"
    );
    assert_eq!(format_duration_human(Duration::from_secs(62)), "1m2s");
}

#[test]
fn runtime_line_reports_delta_vs_baseline() {
    let run = make_run();
    // 44s now against a 40s average is +10%. The fixture has no per-test
    // timing, so the "test time" tail is omitted.
    let line =
        format_runtime_line(&run, Duration::from_secs(44), Some(Duration::from_secs(40)));
    assert_eq!(
        line,
        "**Runtime:** 44.00s (up 10% vs avg of last runs, 40.00s)"
    );
}

#[test]
fn runtime_line_reports_improvement_and_test_time() {
    let mut run = TestRun::new(RunId::new("t"));
    run.add_result(TestResult::success("tests.a").with_duration(Duration::from_secs(3)));
    run.add_result(TestResult::success("tests.b").with_duration(Duration::from_secs(2)));
    // Wall-clock 4s vs 5s average is -20%; summed test time is 5s.
    let line = format_runtime_line(&run, Duration::from_secs(4), Some(Duration::from_secs(5)));
    assert_eq!(
        line,
        "**Runtime:** 4.00s (down 20% vs avg of last runs, 5.00s)  \u{2014}  test time: 5.00s"
    );
}

#[test]
fn runtime_line_omits_comparison_without_baseline() {
    let run = make_run();
    let line = format_runtime_line(&run, Duration::from_millis(1500), None);
    assert_eq!(line, "**Runtime:** 1.50s");
}

#[test]
fn slowest_tests_block_lists_top_by_duration() {
    let mut run = TestRun::new(RunId::new("s"));
    run.add_result(TestResult::success("tests.fast").with_duration(Duration::from_millis(10)));
    run.add_result(TestResult::success("tests.slow").with_duration(Duration::from_secs(3)));
    run.add_result(TestResult::success("tests.mid").with_duration(Duration::from_secs(1)));
    let mut out = String::new();
    write_slowest_tests_block(&mut out, &run);
    let expected = "\n\
         <details><summary>Slowest tests (3)</summary>\n\
         \n\
         - `tests.slow` — 3.00s\n\
         - `tests.mid` — 1.00s\n\
         - `tests.fast` — 10ms\n\
         \n\
         </details>\n";
    assert_eq!(out, expected);
}

#[test]
fn slowest_tests_block_empty_without_timing() {
    // `make_run` results carry no durations, so the block is suppressed.
    let run = make_run();
    let mut out = String::new();
    write_slowest_tests_block(&mut out, &run);
    assert_eq!(out, "");
}

#[test]
fn filter_annotations_keeps_only_matching_titles() {
    let annotations = "\
        ::error file=src/a.rs,line=1,title=tests.a::msg\n\
        ::error file=src/b.rs,line=2,title=tests.b::msg\n";
    let keep = vec![TestId::new("tests.b")];
    let out = filter_annotations(annotations, &keep);
    assert_eq!(out, "::error file=src/b.rs,line=2,title=tests.b::msg\n");
}

#[test]
fn format_group_block_matches_batched_output() {
    // A single block built by `format_group_block` should be exactly what
    // `format_failure_groups` would emit for that one test, so the
    // streaming and batched paths produce identical workflow output.
    let run = make_run();
    let beta = run.results.find("tests.b").unwrap();
    let single = format_group_block(beta, CiFormat::Github);
    let mut only_beta = TestRun::new(RunId::new("only"));
    only_beta.add_result(beta.copy());
    let batched = format_failure_groups(&only_beta, None, CiFormat::Github);
    assert_eq!(single, batched);
}

#[test]
fn format_group_block_skips_empty_message_and_details() {
    // Empty/whitespace-only message and missing details should still
    // produce a well-formed group with just the header and endgroup.
    let mut result = TestResult::failure("tests.empty", "   ");
    result.details = None;
    let out = format_group_block(&result, CiFormat::Github);
    assert_eq!(out, "::group::tests.empty\n::endgroup::\n");
}

/// Deterministic clock for GitLab section tests. The actual timestamp
/// value is irrelevant to GitLab's section matching (it only uses it for
/// the cosmetic duration display); we just want it stable for `assert_eq!`.
fn fake_clock() -> i64 {
    1_700_000_000
}

#[test]
fn format_group_block_uses_gitlab_section_markers() {
    let run = make_run();
    let beta = run.results.find("tests.b").unwrap();
    let out = format_group_block_with(beta, CiFormat::Gitlab, fake_clock());
    let expected = "\x1b[0Ksection_start:1700000000:tests.b[collapsed=true]\r\x1b[0Ktests.b\n\
                    boom\n\
                    File \"tests/b.py\", line 7, in test\n    \
                    raise AssertionError\n\
                    \x1b[0Ksection_end:1700000000:tests.b\r\x1b[0K\n";
    assert_eq!(out, expected);
}

#[test]
fn gitlab_section_name_sanitizes_disallowed_chars() {
    // GitLab section names allow only [A-Za-z0-9._-]; everything else
    // gets replaced with `_` so the runner accepts the marker.
    assert_eq!(
        sanitize_gitlab_section_name("foo::bar::baz"),
        "foo__bar__baz"
    );
    assert_eq!(sanitize_gitlab_section_name("mod/file.rs"), "mod_file.rs");
    assert_eq!(
        sanitize_gitlab_section_name("test[case,with,commas]"),
        "test_case_with_commas_"
    );
    assert_eq!(sanitize_gitlab_section_name("plain.id-9_x"), "plain.id-9_x");
    // Empty input collapses to a single underscore so the section name
    // is never empty (GitLab rejects empty names).
    assert_eq!(sanitize_gitlab_section_name(""), "_");
}

#[test]
fn format_error_annotation_extracts_source_location() {
    let run = make_run();
    let beta = run.results.find("tests.b").unwrap();
    let out = format_error_annotation(beta);
    assert_eq!(out, "::error file=tests/b.py,line=7,title=tests.b::boom\n");
}

#[test]
fn format_error_annotation_empty_for_non_failures() {
    let run = make_run();
    let alpha = run.results.find("tests.a").unwrap();
    let skipped = run.results.find("tests.d").unwrap();
    assert_eq!(format_error_annotation(alpha), "");
    assert_eq!(format_error_annotation(skipped), "");
}

#[test]
fn failure_groups_skip_already_streamed() {
    let run = make_run();
    let skip = vec![TestId::new("tests.b")];
    let out = format_failure_groups(&run, Some(&skip), CiFormat::Github);
    // tests.b was already streamed live; only tests.c remains for the
    // batched emission.
    assert_eq!(
        out,
        "::group::tests.c\n\
         timeout\n\
         ::endgroup::\n"
    );
}

/// Expected step-output body for `make_run()` (1 success, 1 failure,
/// 1 error, 1 skip). Each test constructs the exact `flaky` /
/// `run_id` / `duration` it wants and reuses this fragment.
fn expected_step_outputs(failed: usize, flaky: usize, run_id: &str, duration: &str) -> String {
    format!(
        "passed=1\nfailed={}\nflaky={}\nduration={}\nrun_id={}\n",
        failed, flaky, duration, run_id,
    )
}

#[test]
fn write_github_output_writes_expected_lines() {
    let e = env(&[("GITHUB_OUTPUT", "/tmp/out")]);

    let run = make_run();
    let file = write_github_output(&e, &run, &vec![], &RunId::new("42"), Duration::from_millis(2500));

    let file = file.unwrap();
    assert_eq!(file.path, "/tmp/out");
    let body = file.text;
    assert_eq!(body, expected_step_outputs(2, 0, "42", "2.500"));
}

#[test]
fn write_github_output_subtracts_flakes_from_failed() {
    let e = env(&[("GITHUB_OUTPUT", "/tmp/out")]);

    let run = make_run();
    let flaky = vec![TestId::new("tests.b")];
    let file = write_github_output(&e, &run, &flaky, &RunId::new("1"), Duration::from_nanos(0));

    let file = file.unwrap();
    assert_eq!(file.path, "/tmp/out");
    let body = file.text;
    // tests.b recovered on retry, so it counts as flaky, not failed.
    assert_eq!(body, expected_step_outputs(1, 1, "1", "0.000"));
}

#[test]
fn write_github_output_appends_when_file_already_has_content() {
    let e = env(&[("GITHUB_OUTPUT", "/tmp/out")]);

    let run = make_run();
    let file = write_github_output(&e, &run, &vec![], &RunId::new("1"), Duration::from_nanos(0));

    let file = file.unwrap();
    assert_eq!(file.path, "/tmp/out");
    let body = format!("prior=value\n{}", file.text);
    // GitHub Actions concatenates outputs from multiple writers in a
    // single step; we must append, not truncate.
    let expected = format!("prior=value\n{}", expected_step_outputs(2, 0, "1", "0.000"));
    assert_eq!(body, expected);
}

#[test]
fn write_github_output_no_op_when_env_var_unset() {
    let e = env(&[]);
    let run = make_run();
    let file = write_github_output(&e, &run, &vec![], &RunId::new("1"), Duration::from_nanos(0));
    assert!(file.is_none());
}

#[test]
fn emit_ci_output_skips_streamed_error_annotations() {
    // When the streaming callback already wrote error annotations,
    // emit_ci_output must not duplicate them — only the foldable
    // groups should reach the UI.
    let run = make_run();
    let mut ui = Transcript::new();
    let e = env(&[]);
    let _ = emit_ci_output(
        &mut ui,
        &run,
        &vec![],
        CiFormat::Github,
        &e,
        None,
        /* streamed_errors_already */ true,
        &RunId::new("0"),
        Duration::from_nanos(0),
        &TextMap::new(),
        None,
        0,
    );
    // ui.output() trims the trailing newline before recording, so the
    // captured form drops the final `\n` after the last `::endgroup::`.
    assert_eq!(
        outputs(&ui),
        vec!["::group::tests.b\n\
             boom\n\
             File \"tests/b.py\", line 7, in test\n    \
             raise AssertionError\n\
             ::endgroup::\n\
             ::group::tests.c\n\
             timeout\n\
             ::endgroup::"
            .to_string()]
    );
}

#[test]
fn emit_ci_output_writes_step_outputs_only_for_github() {
    // `$GITHUB_OUTPUT` is a GitHub Actions concept; the GitLab branch
    // must not touch it even when the env var happens to be set.
    let e = env(&[("GITHUB_OUTPUT", "/tmp/out")]);

    let mut ui = Transcript::new();
    let run = make_run();
    let files = emit_ci_output(
        &mut ui,
        &run,
        &vec![],
        CiFormat::Gitlab,
        &e,
        None,
        false,
        &RunId::new("0"),
        Duration::from_nanos(0),
        &TextMap::new(),
        None,
        0,
    );
    assert!(files.outputs.is_none());
}

#[test]
fn emit_ci_output_forgejo_writes_step_outputs_but_no_log_markup() {
    // Forgejo doesn't render workflow commands but does honour
    // `$GITHUB_OUTPUT` (mirrored from `$FORGEJO_OUTPUT`). Emitting
    // `::group::` / `::error::` would just clutter the log, so the
    // log output stays empty.
    let e = env(&[("GITHUB_OUTPUT", "/tmp/out")]);

    let mut ui = Transcript::new();
    let run = make_run();
    let files = emit_ci_output(
        &mut ui,
        &run,
        &vec![],
        CiFormat::Forgejo,
        &e,
        None,
        false,
        &RunId::new("forge"),
        Duration::from_nanos(0),
        &TextMap::new(),
        None,
        0,
    );
    assert_eq!(outputs(&ui), Vec::<String>::new());
    let file = files.outputs.unwrap();
    assert_eq!(file.path, "/tmp/out");
    let body = file.text;
    assert_eq!(body, expected_step_outputs(2, 0, "forge", "0.000"));
}

#[test]
fn emit_ci_output_forgejo_skips_step_summary() {
    // `$GITHUB_STEP_SUMMARY` is a GitHub-only feature; Forgejo doesn't
    // render it. We must not touch the file even if the env var leaks
    // in (e.g. from a copy-pasted workflow).
    let e = env(&[
        ("GITHUB_OUTPUT", "/tmp/out"),
        ("GITHUB_STEP_SUMMARY", "/tmp/summary"),
    ]);

    let mut ui = Transcript::new();
    let run = make_run();
    let files = emit_ci_output(
        &mut ui,
        &run,
        &vec![],
        CiFormat::Forgejo,
        &e,
        None,
        false,
        &RunId::new("forge"),
        Duration::from_nanos(0),
        &TextMap::new(),
        None,
        0,
    );
    assert!(files.summary.is_none());
}

#[test]
fn emit_ci_output_woodpecker_writes_nothing_provider_specific() {
    // Woodpecker has no workflow-command or env-driven output surfaces;
    // both stdout and any `$GITHUB_OUTPUT`-like file must stay empty.
    let e = env(&[("GITHUB_OUTPUT", "/tmp/out")]);

    let mut ui = Transcript::new();
    let run = make_run();
    let files = emit_ci_output(
        &mut ui,
        &run,
        &vec![],
        CiFormat::Woodpecker,
        &e,
        None,
        false,
        &RunId::new("wp"),
        Duration::from_nanos(0),
        &TextMap::new(),
        None,
        0,
    );
    assert_eq!(outputs(&ui), Vec::<String>::new());
    assert!(files.outputs.is_none());
    assert!(files.summary.is_none());
}

#[test]
fn write_dotenv_writes_step_outputs_to_explicit_path() {
    // `--dotenv-path` is the GitLab path: same wire format as
    // `$GITHUB_OUTPUT`, but written to a user-named file the pipeline
    // declares as `artifacts:reports:dotenv:`.
    let run = make_run();
    let body = format_step_outputs(&run, &vec![], &RunId::new("7"), Duration::from_millis(500));
    assert_eq!(body, expected_step_outputs(2, 0, "7", "0.500"));
}

#[test]
fn write_dotenv_truncates_existing_content() {
    // Unlike $GITHUB_OUTPUT, the dotenv path is owned by inq for the
    // run; pre-existing content must be replaced, not appended.
    let run = make_run();
    let body = format_step_outputs(&run, &vec![], &RunId::new("1"), Duration::from_nanos(0));
    assert_eq!(body, expected_step_outputs(2, 0, "1", "0.000"));
}

#[test]
fn write_junit_report_matches_export_junit_output() {
    let run = make_run();
    let body = export_junit(&run).unwrap();
    let expected = export_junit(&run).unwrap();
    assert_eq!(body, expected);
    assert!(body.contains("tests/b.py"), "got: {}", body);
}

#[test]
fn step_summary_annotates_failures_with_recent_history() {
    // When the repository has past-run history for a failing test, the
    // summary appends a "(failed N of last M)" hint so readers can
    // tell a fresh regression apart from a chronic flake at a glance.
    let run = make_run();
    let mut history = TextMap::new();
    history.insert(
        "tests.b",
        TestHistory {
            failures: 7,
            runs_seen: 10,
        },
    );
    // tests.c has no history — it's a brand-new test; the hint should
    // be omitted rather than printing a misleading "0 of 0".
    let summary = format_step_summary(&run, &vec![], &history, Duration::from_secs(1), None);
    assert!(
        summary.contains("- `tests.b` — boom (failed 7 of last 10)\n"),
        "missing history hint for tests.b: {summary}"
    );
    assert!(
        summary.contains("- `tests.c` — timeout\n"),
        "tests.c should not have a hint: {summary}"
    );
}

#[test]
fn step_summary_annotates_flaky_tests_with_recent_history() {
    // The same hint applies to the flaky-tests list: a test that just
    // started failing should look different from one that's been
    // flaking for weeks.
    let run = make_run();
    let flaky = vec![TestId::new("tests.b")];
    let mut history = TextMap::new();
    history.insert(
        "tests.b",
        TestHistory {
            failures: 4,
            runs_seen: 10,
        },
    );
    let summary = format_step_summary(&run, &flaky, &history, Duration::from_secs(1), None);
    assert!(
        summary.contains("- `tests.b` (passed on retry) (failed 4 of last 10)\n"),
        "missing flake history hint: {summary}"
    );
}

#[test]
fn step_summary_truncates_long_tracebacks() {
    // A traceback exceeding SUMMARY_DETAILS_MAX_LINES is cut off with a
    // "... (truncated)" marker so a single blown-up failure can't push
    // the whole summary past GitHub's 1MiB cap.
    let mut run = TestRun::new(RunId::new("0"));
    let long: String = (0..50).map(|i| format!("line {i}\n")).collect();
    run.add_result(TestResult::failure("tests.big", "oops").with_details(&long));
    let summary = format_step_summary(&run, &vec![], &TextMap::new(), Duration::from_secs(1), None);
    assert!(
        summary.contains("  line 0\n"),
        "first line missing: {summary}"
    );
    assert!(
        summary.contains(&format!("  line {}\n", SUMMARY_DETAILS_MAX_LINES - 1)),
        "last kept line missing: {summary}"
    );
    assert!(
        !summary.contains(&format!("  line {}\n", SUMMARY_DETAILS_MAX_LINES)),
        "line past the cap should be dropped: {summary}"
    );
    assert!(
        summary.contains("  ... (truncated)\n"),
        "truncation marker missing: {summary}"
    );
}

#[test]
fn step_summary_omits_traceback_when_details_empty() {
    // Tests without recorded details (e.g., a bare `TestResult::error`)
    // still appear in the failing list but with no nested block.
    let mut run = TestRun::new(RunId::new("0"));
    run.add_result(TestResult::error("tests.nodetail", "gone"));
    let summary = format_step_summary(&run, &vec![], &TextMap::new(), Duration::from_secs(1), None);
    assert!(summary.contains("- `tests.nodetail` — gone\n"));
    assert!(!summary.contains("<summary>traceback</summary>"));
}

#[test]
fn format_history_hint_omits_runs_seen_zero() {
    // Defensive: even if a `TestHistory` entry exists with `runs_seen = 0`
    // (no recorded results in the window), we must not print "0 of 0".
    let id = TestId::new("tests.x");
    let mut history = TextMap::new();
    history.insert(id.as_str(), TestHistory::default());
    assert_eq!(format_history_hint(id.as_str(), &history), "");
}

#[test]
fn build_result_callback_cancels_token_on_max_failures() {
    // With `max_failures = 2`, the third failure to come through the
    // callback should find the token already cancelled because the
    // second one tripped it. Passing tests don't count toward the limit.
    let mut cmd = CiCommand::new(None);
    cmd.max_failures = Some(2);
    // No streaming surface — we're testing the cap path on its own.
    let mut cb = cmd
        .build_result_callback(false, false, CiFormat::Plain)
        .expect("callback should exist when max_failures is set");

    cb.call(&TestResult::success("tests.ok"), 0);
    assert!(!cb.cancelled);
    cb.call(&TestResult::failure("tests.fail1", "x"), 0);
    assert!(!cb.cancelled);
    cb.call(&TestResult::failure("tests.fail2", "x"), 0);
    assert!(cb.cancelled, "second failure should cancel");
    // Subsequent failures must be a no-op (re-cancelling is fine).
    cb.call(&TestResult::failure("tests.fail3", "x"), 0);
    assert!(cb.cancelled);
    // Counter reflects observed failures, including post-cancel ones —
    // we don't pretend they didn't happen.
    assert_eq!(cb.failures, 3);
}

#[test]
fn build_result_callback_none_when_no_streaming_and_no_cap() {
    // With neither a streaming surface nor a failure cap, the callback
    // has nothing to do and we save the executor an allocation per test.
    let cmd = CiCommand::new(None);
    assert!(cmd
        .build_result_callback(false, false, CiFormat::Plain)
        .is_none());
}

#[test]
fn build_result_callback_cap_alone_returns_callback_without_streaming() {
    // `--max-failures` without a streaming format (e.g. plain/forgejo)
    // still needs the callback to count failures and trip the token.
    let mut cmd = CiCommand::new(None);
    cmd.max_failures = Some(1);
    let mut cb = cmd
        .build_result_callback(false, false, CiFormat::Plain)
        .expect("callback should exist");
    cb.call(&TestResult::failure("tests.fail", "x"), 0);
    assert!(cb.cancelled);
}

#[test]
fn emit_ci_output_writes_step_outputs_for_github() {
    // The GitHub branch wires `$GITHUB_OUTPUT` through, so a downstream
    // step can read passed/failed/run_id without inq needing a separate
    // call from the orchestration layer.
    let e = env(&[("GITHUB_OUTPUT", "/tmp/out")]);

    let mut ui = Transcript::new();
    let run = make_run();
    let files = emit_ci_output(
        &mut ui,
        &run,
        &vec![],
        CiFormat::Github,
        &e,
        None,
        false,
        &RunId::new("99"),
        Duration::from_nanos(0),
        &TextMap::new(),
        None,
        0,
    );
    let file = files.outputs.unwrap();
    assert_eq!(file.path, "/tmp/out");
    let body = file.text;
    assert_eq!(body, expected_step_outputs(2, 0, "99", "0.000"));
}

#[test]
fn ci_command_name_and_help() {
    let cmd = CiCommand::new(None);
    assert_eq!(cmd.name(), "ci");
    assert!(cmd.help().contains("CI provider"));
}

#[test]
fn ci_format_error_names_the_formats() {
    assert_eq!(
        "XML".parse::<CiFormat>().unwrap_err(),
        "unknown ci format 'xml': expected auto, github, gitlab, forgejo, woodpecker, or plain"
    );
    assert_eq!("NONE".parse::<CiFormat>().unwrap(), CiFormat::Plain);
    assert_eq!("GitLab".parse::<CiFormat>().unwrap(), CiFormat::Gitlab);
}

#[test]
fn annotations_without_a_location_are_kept_too() {
    let run = make_run();
    let mut ui = Transcript::new();
    let e = env(&[]);
    emit_ci_output(
        &mut ui,
        &run,
        &vec![TestId::new("tests.b")],
        CiFormat::Github,
        &e,
        Some(&vec![TestId::new("tests.b"), TestId::new("tests.c")]),
        false,
        &RunId::new("0"),
        Duration::from_secs(0),
        &TextMap::new(),
        None,
        0,
    );
    assert_eq!(
        outputs(&ui),
        vec![
            "::warning file=tests/b.py,line=7,title=Flaky: tests.b::boom (passed on retry)\n\
             ::error title=tests.c::timeout"
        ]
    );
}

#[test]
fn details_are_cut_by_bytes_too() {
    let wide = "é".repeat(1000);
    let text = format!("{}\n{}\n", wide, wide);
    assert_eq!(truncate_details(&text), format!("{}\n... (truncated)\n", wide));
    let mut out = String::from("x\n");
    write_details_block(&mut out, "");
    assert_eq!(out, "x\n");
    write_details_block(&mut out, "a\nb");
    assert_eq!(
        out,
        "x\n  <details><summary>traceback</summary>\n\n  ```\n  a\n  b\n  ```\n\n  </details>\n"
    );
}

#[test]
fn runtime_line_rounds_changes() {
    let run = TestRun::new(RunId::new("0"));
    let ms = |n: u64| Duration::from_millis(n);
    assert_eq!(
        format_runtime_line(&run, ms(1001), Some(ms(1000))),
        "**Runtime:** 1.00s (no change vs avg of last runs, 1.00s)"
    );
    assert_eq!(
        format_runtime_line(&run, ms(1005), Some(ms(1000))),
        "**Runtime:** 1.00s (no change vs avg of last runs, 1.00s)"
    );
    for (now, base) in [(1015u64, 1000u64), (985, 1000), (995, 1000), (1025, 1000), (7, 3), (1, 8),
        (400, 100), (123_456, 789), (1, 1), (60_500, 60_000)]
    {
        let b = std::time::Duration::from_millis(base).as_secs_f64();
        let d = std::time::Duration::from_millis(now).as_secs_f64();
        let percent = ((d - b) / b * 100.0).round() as i64;
        let change = if percent > 0 {
            format!("up {}%", percent)
        } else if percent < 0 {
            format!("down {}%", -percent)
        } else {
            "no change".to_string()
        };
        let line = format_runtime_line(&run, ms(now), Some(ms(base)));
        assert!(line.contains(&format!("({} vs", change)), "{} {}: {}", now, base, line);
    }
    assert_eq!(
        format_runtime_line(&run, ms(1006), Some(ms(1000))),
        "**Runtime:** 1.01s (up 1% vs avg of last runs, 1.00s)"
    );
    assert_eq!(
        format_runtime_line(&run, ms(500), Some(ms(0))),
        "**Runtime:** 500ms"
    );
    assert_eq!(format_duration_human(ms(119_600)), "2m0s");
}

#[test]
fn seconds_are_rounded_as_binary_fractions() {
    let ms = |n: u64| Duration::from_millis(n);
    for n in [1000u64, 1005, 1015, 1025, 2675, 3125, 4565, 9995, 59_995, 59_999] {
        let secs = std::time::Duration::from_millis(n).as_secs_f64();
        assert_eq!(format_duration_human(ms(n)), format!("{:.2}s", secs));
    }
    for n in [0u128, 1, 499_999, 500_000, 1_500_000, 2_500_000, 999_999_999, 1_000_500_000,
        123_456_789_012_345_678, 9_007_199_254_740_993_500_500_000]
    {
        let secs = std::time::Duration::new(
            (n / 1_000_000_000) as u64,
            (n % 1_000_000_000) as u32,
        )
        .as_secs_f64();
        let d = Duration::from_nanos(n);
        assert_eq!(seconds_with_millis(d), format!("{:.3}", secs));
        assert_eq!(seconds_with_tenths(d), format!("{:.1}", secs));
    }
    let longest = std::time::Duration::new(u64::MAX, 999_999_999).as_secs_f64();
    let d = Duration::from_nanos(18_446_744_073_709_551_615_999_999_999);
    assert_eq!(seconds_with_millis(d), format!("{:.3}", longest));
}

#[test]
fn recent_runs_are_counted_without_the_current_one() {
    let mut repo = Store::new();
    for i in 0..4u32 {
        let mut run = TestRun::new(RunId::new(&i.to_string()));
        if i % 2 == 0 {
            run.add_result(TestResult::failure("t", "x"));
        } else {
            run.add_result(TestResult::success("t"));
        }
        let id = repo.insert_test_run(run);
        let metadata = RunMetadata {
            duration: Some(Duration::from_secs(10 * (i as u64 + 1))),
            ..RunMetadata::default()
        };
        repo.set_run_metadata(&id, metadata).unwrap();
    }
    let current = RunId::new("3");
    let history = collect_test_history(&repo, &current, 2);
    let h = history.get("t").unwrap();
    assert_eq!(h.runs_seen, 2);
    assert_eq!(h.failures, 1);
    assert!(history.get("u").is_none());
    assert!(collect_test_history(&repo, &current, 0).is_empty());
    assert_eq!(
        collect_recent_duration_avg(&repo, &current, 2),
        Some(Duration::from_secs(25))
    );
    assert_eq!(collect_recent_duration_avg(&repo, &current, 0), None);
    let long = Duration::from_secs(u64::MAX / 2);
    for run in repo.runs.iter_mut() {
        run.metadata.duration = Some(long);
    }
    assert_eq!(
        collect_recent_duration_avg(&repo, &current, 3),
        Some(Duration::from_secs(1 << 63))
    );
    let spans = [100u64, 333, 1001];
    for (run, ms) in repo.runs.iter_mut().zip(spans) {
        run.metadata.duration = Some(Duration::from_millis(ms));
    }
    let mean = ((0.0 + 1.001) + 0.333 + 0.1) / 3.0;
    let mean = std::time::Duration::from_secs_f64(mean).as_nanos();
    assert_eq!(
        collect_recent_duration_avg(&repo, &current, 3),
        Some(Duration::from_nanos(mean))
    );
}

#[test]
fn retries_tell_flaky_from_failing() {
    let mut r = Retries::new(&vec![TestId::new("a"), TestId::new("b")]);
    assert!(r.wants_more(2));
    let mut again = TestRun::new(RunId::new("1"));
    again.add_result(TestResult::success("a"));
    again.add_result(TestResult::skip("b"));
    r.record(Some(&again));
    assert_eq!(r.exit_code(), 1);
    assert_eq!(r.still_failing.len(), 1);
    assert_eq!(r.still_failing[0].as_str(), "b");
    let flaky = r.flaky();
    assert_eq!(flaky.len(), 1);
    assert_eq!(flaky[0].as_str(), "a");
    assert!(r.wants_more(2));
    r.record(None);
    assert!(!r.wants_more(2));
    assert!(!Retries::new(&vec![]).wants_more(5));
    assert_eq!(Retries::new(&vec![]).exit_code(), 0);
}

#[test]
fn plan_follows_the_environment() {
    let mut cmd = CiCommand::new(None);
    let plan = cmd.plan(&env(&[("GITLAB_CI", "true")]), Some(3));
    assert_eq!(plan.format, CiFormat::Gitlab);
    assert_eq!(plan.order, TestOrder::FrequentFailingFirst);
    assert!(plan.streaming);
    assert!(plan.emit_errors_now);
    cmd.retries = 1;
    cmd.order = Some(TestOrder::Alphabetical);
    let plan = cmd.plan(&env(&[("GITHUB_ACTIONS", "true")]), None);
    assert!(!plan.emit_errors_now);
    assert_eq!(plan.order, TestOrder::Alphabetical);
    assert_eq!(default_ci_order(Some(0)), TestOrder::Discovery);
    assert_eq!(default_ci_order(None), TestOrder::Discovery);
}

#[test]
fn failures_are_told_as_they_happen() {
    let cmd = CiCommand::new(None);
    let mut cb = cmd.build_result_callback(true, true, CiFormat::Github).unwrap();
    assert_eq!(cb.call(&TestResult::success("ok"), 0), "");
    assert_eq!(
        cb.call(&TestResult::failure("bad", "boom"), 0),
        "::group::bad\nboom\n::endgroup::\n::error title=bad::boom\n"
    );
    assert_eq!(cb.streamed.unwrap().len(), 1);
    assert!(!cb.cancelled);
}

#[test]
fn starts_of_names_are_expanded() {
    let mut cmd = CiCommand::new(None);
    cmd.starting_with = vec!["bt".to_string()];
    cmd.test_filters = vec!["x$|y$".to_string()];
    let mut ui = Transcript::new();
    let mut p = cmd.begin(TestOrder::Auto, false);
    let action = cmd.advance(&mut p, CiEvent::Started(true), &mut ui).unwrap();
    assert!(matches!(action, CiAction::OpenRepository));
    let opened = CiEvent::Opened(Some("ci".to_string()));
    let action = cmd.advance(&mut p, opened, &mut ui).unwrap();
    assert!(matches!(action, CiAction::ListTests));
    let known = ["breezy.tests.x", "breezy.tests.z", "breezy_y", "other.y"];
    let known = known.iter().map(|t| TestId::new(t)).collect();
    let action = cmd.advance(&mut p, CiEvent::Tests(known), &mut ui).unwrap();
    assert!(matches!(action, CiAction::ChooseOrder));
    let chosen = CiEvent::Chosen(TestOrder::Discovery);
    let action = cmd.advance(&mut p, chosen, &mut ui).unwrap();
    assert!(matches!(action, CiAction::AskConcurrency(None)));
    let action = cmd.advance(&mut p, CiEvent::Concurrency(Some(0)), &mut ui).unwrap();
    match action {
        CiAction::Execute { mode, selection, partial } => {
            assert_eq!(mode, ExecutionMode::Serial);
            assert!(!partial);
            let tests = selection.unwrap();
            assert_eq!(tests.len(), 1);
            assert_eq!(tests[0].as_str(), "breezy.tests.x");
        }
        other => panic!("unexpected: {:?}", other),
    }
    let done = CiEvent::Executed(RunId::new("4"));
    let action = cmd.advance(&mut p, done, &mut ui).unwrap();
    assert!(matches!(action, CiAction::Ran(id) if id.as_str() == "4"));
    assert_eq!(
        outputs(&ui),
        vec![
            "Using profile: ci",
            "Expanded 'bt' to 'breezy.tests'",
            "Auto-selected test order: discovery",
        ]
    );
}

#[test]
fn unknown_starts_are_told() {
    let mut cmd = CiCommand::new(None);
    cmd.starting_with = vec!["zz".to_string()];
    let mut ui = Transcript::new();
    let mut p = cmd.begin(TestOrder::Discovery, true);
    cmd.advance(&mut p, CiEvent::Started(false), &mut ui).unwrap();
    let action = cmd.advance(&mut p, CiEvent::Opened(None), &mut ui).unwrap();
    assert!(matches!(action, CiAction::ReadFailing));
    let tests = CiEvent::Tests(vec![TestId::new("a.b")]);
    let err = cmd.advance(&mut p, tests, &mut ui).unwrap_err();
    assert_eq!(
        err.message(),
        "Configuration error: abbreviation 'zz' matches no known tests"
    );
}

#[test]
fn nothing_to_retry_ends_early() {
    let cmd = CiCommand::new(None);
    let mut ui = Transcript::new();
    let mut p = cmd.begin(TestOrder::Discovery, true);
    cmd.advance(&mut p, CiEvent::Started(false), &mut ui).unwrap();
    cmd.advance(&mut p, CiEvent::Opened(None), &mut ui).unwrap();
    let action = cmd.advance(&mut p, CiEvent::Tests(vec![]), &mut ui).unwrap();
    assert!(matches!(action, CiAction::EarlyExit(0)));
    assert_eq!(outputs(&ui), vec!["No failing tests to run"]);
    let mut p = cmd.begin(TestOrder::Discovery, false);
    let action = cmd.advance(&mut p, CiEvent::Started(false), &mut ui).unwrap();
    assert!(matches!(action, CiAction::AutoConfigure));
    let action = cmd.advance(&mut p, CiEvent::AutoConfigured(1), &mut ui).unwrap();
    assert!(matches!(action, CiAction::EarlyExit(1)));
}
