use inquest::commands::flaky::FlakyCommand;
use inquest::commands::Command;
use inquest::repository::TestStatus::{Failure, Success};
use inquest::repository::{RunId, TestId, TestResult, TestRun, TestStatus};
use inquest::store::Store;
use inquest::natural::Natural;
use inquest::time::{percent, Timestamp};
use inquest::ui::{Message, Transcript};

fn outputs(ui: &Transcript) -> Vec<String> {
    ui.messages
        .iter()
        .filter_map(|m| match m {
            Message::Output(s) => Some(s.clone()),
            _ => None,
        })
        .collect()
}

/// Insert a sequence of runs whose results follow a pre-defined pattern,
/// so each test case can describe what happened succinctly.
fn build_history(
    repo: &mut Store,
    per_test_statuses: &[(&str, &[TestStatus])],
) {
    // Find how many runs we need (length of the longest pattern).
    let n_runs = per_test_statuses
        .iter()
        .map(|(_, s)| s.len())
        .max()
        .unwrap_or(0);
    for run_idx in 0..n_runs {
        let mut run = TestRun::new(RunId::new(&run_idx.to_string()));
        run.timestamp = Timestamp { seconds: 1_700_000_000 + run_idx as i64, nanos: 0 };
        for (test_id, statuses) in per_test_statuses {
            if let Some(status) = statuses.get(run_idx) {
                let result = TestResult {
                    test_id: TestId::new(test_id),
                    status: *status,
                    duration: None,
                    message: None,
                    details: None,
                    tags: vec![],
                };
                run.add_result(result);
            }
        }
        repo.insert_test_run(run);
    }
}

#[test]
fn empty_repository_reports_no_flaky() {
    let repo = Store::new();

    let mut ui = Transcript::new();
    let cmd = FlakyCommand::new(None, 10, 5);
    assert_eq!(cmd.execute(&repo, &mut ui).unwrap(), 0);
    assert_eq!(outputs(&ui).len(), 1);
    assert!(outputs(&ui)[0].contains("No flaky tests found"));
}

#[test]
fn ranks_flapping_above_chronically_broken() {
    let mut repo = Store::new();
    // flapping_test: P F P F P F  → 5 transitions, 50% fail rate
    // broken_test:   F F F F F F  → 0 transitions, 100% fail rate
    // stable_test:   P P P P P P  → 0 transitions, 0% fail rate
    build_history(
        &mut repo,
        &[
            (
                "flapping_test",
                &[Success, Failure, Success, Failure, Success, Failure],
            ),
            (
                "broken_test",
                &[Failure, Failure, Failure, Failure, Failure, Failure],
            ),
            (
                "stable_test",
                &[Success, Success, Success, Success, Success, Success],
            ),
        ],
    );

    let stats = repo.get_flakiness(5);
    // stable_test never failed, so it must not appear in the flakiness report.
    assert_eq!(stats.len(), 2);
    assert!(!stats.iter().any(|s| s.test_id.as_str() == "stable_test"));
    assert_eq!(stats[0].test_id.as_str(), "flapping_test");
    assert_eq!(stats[0].transitions, 5);
    assert_eq!(stats[0].runs, 6);
    assert_eq!(stats[0].failures, 3);
    // Broken test should rank below flapping (more failures, no transitions).
    let broken = stats
        .iter()
        .find(|s| s.test_id.as_str() == "broken_test")
        .unwrap();
    assert_eq!(broken.transitions, 0);
    assert_eq!(broken.failures, 6);
}

#[test]
fn never_failed_tests_are_excluded() {
    let mut repo = Store::new();
    build_history(
        &mut repo,
        &[(
            "always_passes",
            &[Success, Success, Success, Success, Success],
        )],
    );

    let stats = repo.get_flakiness(2);
    assert!(stats.is_empty());
}

#[test]
fn min_runs_filters_short_history() {
    let mut repo = Store::new();
    // short_test only ran twice; skip when min_runs > 2.
    build_history(
        &mut repo,
        &[
            ("short_test", &[Success, Failure]),
            ("long_test", &[Success, Failure, Success, Failure, Success]),
        ],
    );

    let stats = repo.get_flakiness(5);
    assert_eq!(stats.len(), 1);
    assert_eq!(stats[0].test_id.as_str(), "long_test");

    // Lower the threshold and short_test should appear.
    let stats = repo.get_flakiness(2);
    assert_eq!(stats.len(), 2);
}

#[test]
fn flakiness_score_is_normalised() {
    let mut repo = Store::new();
    // Maximum possible flakiness: every consecutive pair flips.
    build_history(
        &mut repo,
        &[("max_flaky", &[Success, Failure, Success, Failure, Success])],
    );

    let stats = repo.get_flakiness(5);
    assert_eq!(stats.len(), 1);
    let score = stats[0].transitions as f64 / (stats[0].runs - 1) as f64;
    let rate = stats[0].failures as f64 / stats[0].runs as f64;
    assert!((score - 1.0).abs() < 1e-9);
    assert!((rate - 0.4).abs() < 1e-9);
}

#[test]
fn cli_outputs_table_header_and_rows() {
    let mut repo = Store::new();
    build_history(
        &mut repo,
        &[("flap", &[Success, Failure, Success, Failure, Success])],
    );

    let mut ui = Transcript::new();
    let cmd = FlakyCommand::new(None, 10, 5);
    assert_eq!(cmd.execute(&repo, &mut ui).unwrap(), 0);
    assert!(outputs(&ui)[0].contains("Flakiest"));
    assert!(outputs(&ui)[1].contains("flake%"));
    assert!(outputs(&ui)[2].contains("flap"));
}

#[test]
fn flaky_rows_are_aligned() {
    let mut repo = Store::new();
    build_history(
        &mut repo,
        &[
            ("a", &[Success, Failure, Success, Failure, Success]),
            ("b", &[Failure, Failure, Failure, Failure, Success]),
        ],
    );
    let mut ui = Transcript::new();
    let cmd = FlakyCommand::new(None, 10, 5);
    assert_eq!(cmd.name(), "flaky");
    assert_eq!(cmd.execute(&repo, &mut ui).unwrap(), 0);
    assert_eq!(
        outputs(&ui),
        vec![
            "Flakiest 2 test(s) (min 5 runs, 2 candidate(s)):",
            "  flake%  fail%  transitions  runs  test",
            "  100.0%   40.0%            4     5  a",
            "   25.0%   80.0%            1     5  b",
        ]
    );
}

#[test]
fn percentages_are_binary_fractions() {
    for den in 1..120u32 {
        for num in [1, den / 3, den / 2, den - 1, den] {
            let expected = format!("{:.1}", num as f64 / den as f64 * 100.0);
            assert_eq!(percent(num as u128, den as u128), expected);
        }
    }
}

#[test]
fn large_numbers_are_computed_exactly() {
    let big = Natural::from_u128(u128::MAX);
    let square = big.times(&big);
    assert_eq!(
        square.text(),
        "115792089237316195423570985008687907852589419931798687112530834793049593217025"
    );
    let (q, r) = square.plus(&Natural::from_u128(7)).divide(&big);
    assert_eq!(q.to_u128(), u128::MAX);
    assert_eq!(r.to_u128(), 7);
    assert!(square.minus(&square).is_zero());
    assert!(big.less(&square) && !square.less(&big));
}
