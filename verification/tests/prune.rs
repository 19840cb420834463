use inquest::commands::prune::{parse_age_string, PruneCommand, PruneSelection};
use inquest::commands::Command;
use inquest::error::Error;
use inquest::repository::{RunId, TestResult, TestRun};
use inquest::store::Store;
use inquest::time::{Duration, Timestamp};
use inquest::ui::{Message, Transcript};

fn outputs(ui: &Transcript) -> Vec<String> {
    ui.messages
        .iter()
        .filter_map(|m| match m {
            Message::Output(s) => Some(s.clone()),
            _ => None,
        })
        .collect()
}

fn add_run(repo: &mut Store, id: &str, ts: i64) {
    let mut run = TestRun::new(RunId::new(id));
    run.timestamp = Timestamp { seconds: ts, nanos: 0 };
    run.add_result(TestResult::success(&format!("test_{}", id)));
    repo.insert_test_run(run);
}

fn pruned_ids(ui: &Transcript) -> Vec<String> {
    outputs(ui)
        .iter()
        .filter_map(|line| line.strip_prefix("  ").map(|s| s.to_string()))
        .collect()
}

#[test]
fn parse_age_string_units() {
    assert_eq!(parse_age_string("30s").unwrap(), Duration::from_secs(30));
    assert_eq!(parse_age_string("5m").unwrap(), Duration::from_secs(300));
    assert_eq!(parse_age_string("1h").unwrap(), Duration::from_secs(3600));
    assert_eq!(
        parse_age_string("2d").unwrap(),
        Duration::from_secs(172_800)
    );
    assert_eq!(
        parse_age_string("1w").unwrap(),
        Duration::from_secs(604_800)
    );
    assert_eq!(
        parse_age_string("1d12h").unwrap(),
        Duration::from_secs(86_400 + 12 * 3600)
    );
}

#[test]
fn parse_age_string_rejects_invalid() {
    assert!(parse_age_string("").is_err());
    assert!(parse_age_string("abc").is_err());
    assert!(parse_age_string("3y").is_err());
    assert!(parse_age_string("0s").is_err());
}

#[test]
fn keep_retains_most_recent() {
    let mut repo = Store::new();
    for i in 0..5 {
        add_run(&mut repo, &i.to_string(), 1_000_000_000 + i);
    }

    let cmd = PruneCommand::new(None, PruneSelection::Keep(2), false);
    let mut ui = Transcript::new();
    let exit = cmd.execute(&mut repo, &mut ui).unwrap();
    assert_eq!(exit, 0);

    let remaining: Vec<String> = repo.list_run_ids()
        .iter()
        .map(|r| r.as_str().to_string())
        .collect();
    assert_eq!(remaining, vec!["3".to_string(), "4".to_string()]);
}

#[test]
fn keep_zero_drops_everything() {
    let mut repo = Store::new();
    for i in 0..3 {
        add_run(&mut repo, &i.to_string(), 1_000_000_000 + i);
    }

    let cmd = PruneCommand::new(None, PruneSelection::Keep(0), false);
    let mut ui = Transcript::new();
    cmd.execute(&mut repo, &mut ui).unwrap();

    assert!(repo.list_run_ids().is_empty());
}

#[test]
fn keep_more_than_runs_is_noop() {
    let mut repo = Store::new();
    for i in 0..2 {
        add_run(&mut repo, &i.to_string(), 1_000_000_000 + i);
    }

    let cmd = PruneCommand::new(None, PruneSelection::Keep(10), false);
    let mut ui = Transcript::new();
    cmd.execute(&mut repo, &mut ui).unwrap();
    assert!(outputs(&ui).iter().any(|l| l == "No runs to prune."));

    assert_eq!(repo.list_run_ids().len(), 2);
}

#[test]
fn explicit_prunes_listed_ids() {
    let mut repo = Store::new();
    for i in 0..3 {
        add_run(&mut repo, &i.to_string(), 1_000_000_000 + i);
    }

    let cmd = PruneCommand::new(
        None,
        PruneSelection::Explicit(vec!["1".to_string()]),
        false,
    );
    let mut ui = Transcript::new();
    cmd.execute(&mut repo, &mut ui).unwrap();

    let remaining: Vec<String> = repo.list_run_ids()
        .iter()
        .map(|r| r.as_str().to_string())
        .collect();
    assert_eq!(remaining, vec!["0".to_string(), "2".to_string()]);
}

#[test]
fn explicit_unknown_id_errors() {
    let mut repo = Store::new();
    add_run(&mut repo, "0", 1_000_000_000);

    let cmd = PruneCommand::new(
        None,
        PruneSelection::Explicit(vec!["42".to_string()]),
        false,
    );
    let mut ui = Transcript::new();
    let err = cmd.execute(&mut repo, &mut ui).unwrap_err();
    assert!(matches!(err, Error::TestRunNotFound(_)));
}

#[test]
fn all_drops_every_run() {
    let mut repo = Store::new();
    for i in 0..4 {
        add_run(&mut repo, &i.to_string(), 1_000_000_000 + i);
    }

    let cmd = PruneCommand::new(None, PruneSelection::All, false);
    let mut ui = Transcript::new();
    cmd.execute(&mut repo, &mut ui).unwrap();

    assert!(repo.list_run_ids().is_empty());
}

#[test]
fn dry_run_changes_nothing() {
    let mut repo = Store::new();
    for i in 0..3 {
        add_run(&mut repo, &i.to_string(), 1_000_000_000 + i);
    }

    let cmd = PruneCommand::new(None, PruneSelection::Keep(1), true);
    let mut ui = Transcript::new();
    cmd.execute(&mut repo, &mut ui).unwrap();
    let listed = pruned_ids(&ui);
    assert_eq!(listed, vec!["0", "1"]);

    assert_eq!(repo.list_run_ids().len(), 3);
}

#[test]
fn older_than_uses_started_at() {
    let mut repo = Store::new();
    for i in 0..3 {
        add_run(&mut repo, &i.to_string(), 1_000_000_000 + i);
    }

    // Nothing is older than 1 hour yet.
    let cmd = PruneCommand::new(
        None,
        PruneSelection::OlderThan(Duration::from_secs(3600)),
        false,
    );
    let mut ui = Transcript::new();
    let now = Timestamp { seconds: 1_000_000_010, nanos: 0 };
    cmd.execute_at(&mut repo, now, &mut ui).unwrap();
    assert!(outputs(&ui).iter().any(|l| l == "No runs to prune."));

    assert_eq!(repo.list_run_ids().len(), 3);
}

#[test]
fn prune_clears_failing_tests_and_flakiness() {
    let mut repo = Store::new();

    // Run 0: test_a fails, test_b passes
    let mut run0 = TestRun::new(RunId::new("0"));
    run0.timestamp = Timestamp { seconds: 1_000_000_000, nanos: 0 };
    run0.add_result(TestResult::failure("test_a", "boom"));
    run0.add_result(TestResult::success("test_b"));
    repo.insert_test_run(run0);

    // Run 1: test_a passes, test_b fails
    let mut run1 = TestRun::new(RunId::new("1"));
    run1.timestamp = Timestamp { seconds: 1_000_000_001, nanos: 0 };
    run1.add_result(TestResult::success("test_a"));
    run1.add_result(TestResult::failure("test_b", "boom"));
    repo.insert_test_run(run1);

    // After run 1, only test_b should be failing.
    assert_eq!(repo.failing.len(), 1);

    // Prune run 1; after that the only surviving failing-tests row
    // points to a deleted run and would be a dangling reference. We
    // expect prune to remove those rows.
    let cmd = PruneCommand::new(
        None,
        PruneSelection::Explicit(vec!["1".to_string()]),
        false,
    );
    let mut ui = Transcript::new();
    cmd.execute(&mut repo, &mut ui).unwrap();

    let failing_ids: Vec<String> = repo.failing
        .iter()
        .map(|t| t.as_str().to_string())
        .collect();
    assert!(
        !failing_ids.iter().any(|id| id == "test_b"),
        "test_b's failure should have been pruned along with run 1, got: {:?}",
        failing_ids
    );

    // Flakiness cache should now reflect only run 0: test_a failed once
    // (no transitions), test_b passed once (no failures, filtered out).
    let flakiness = repo.get_flakiness(1);
    let test_a = flakiness
        .iter()
        .find(|f| f.test_id.as_str() == "test_a")
        .expect("test_a should still appear in flakiness output");
    assert_eq!(test_a.runs, 1);
    assert_eq!(test_a.failures, 1);
    assert_eq!(test_a.transitions, 0);
    assert!(
        !flakiness.iter().any(|f| f.test_id.as_str() == "test_b"),
        "test_b had no failures after pruning, should be filtered"
    );
}

#[test]
fn select_helper_drops_dangling_failing_test_id() {
    // Sanity-check: the failing_tests row for test_a (pointing at run 0)
    // is the kind of state that would dangle after prune. Verify
    // get_failing_tests after a prune doesn't return it.
    let mut repo = Store::new();
    let mut run0 = TestRun::new(RunId::new("0"));
    run0.timestamp = Timestamp { seconds: 1_000_000_000, nanos: 0 };
    run0.add_result(TestResult::failure("test_a", "boom"));
    repo.insert_test_run(run0);

    let cmd = PruneCommand::new(None, PruneSelection::All, false);
    let mut ui = Transcript::new();
    cmd.execute(&mut repo, &mut ui).unwrap();

    assert!(repo.failing.is_empty());
}

#[test]
fn old_runs_are_dropped_and_running_ones_kept() {
    let mut repo = Store::new();
    for i in 0..4 {
        add_run(&mut repo, &i.to_string(), 1_000 + i);
    }
    repo.runs[1].in_progress = true;
    repo.runs[2].started_at = None;
    let cmd = PruneCommand::new(None, PruneSelection::OlderThan(Duration::from_secs(10)), false);
    assert_eq!(cmd.name(), "prune");
    let mut ui = Transcript::new();
    let now = Timestamp { seconds: 1_013, nanos: 0 };
    assert_eq!(cmd.execute_at(&mut repo, now, &mut ui).unwrap(), 0);
    assert!(matches!(
        &ui.messages[0],
        Message::Warning(s) if s == "Skipping in-progress run 1"
    ));
    assert_eq!(outputs(&ui), vec!["Pruned 1 run(s).", "  0"]);
    let left: Vec<String> =
        repo.list_run_ids().iter().map(|r| r.as_str().to_string()).collect();
    assert_eq!(left, vec!["1", "2", "3"]);
}

#[test]
fn ages_beyond_any_date_are_refused() {
    let mut repo = Store::new();
    let cmd = PruneCommand::new(
        None,
        PruneSelection::OlderThan(Duration::from_secs(u64::MAX)),
        false,
    );
    let mut ui = Transcript::new();
    assert_eq!(
        cmd.execute(&mut repo, &mut ui).unwrap_err().message(),
        "duration too large to convert: Source duration value is out of range for the target type"
    );
}

#[test]
fn ages_have_reasons() {
    let why = |s: &str| parse_age_string(s).unwrap_err().message();
    assert_eq!(why(""), "empty duration string");
    assert_eq!(why("d"), "invalid duration string: 'd'");
    assert_eq!(why("1..d"), "invalid number in duration string: '1..d'");
    assert_eq!(
        why("3y"),
        "invalid duration suffix 'y' in '3y' (use 's', 'm', 'h', 'd', or 'w')"
    );
    assert_eq!(why("0s"), "duration must be positive: '0s'");
    assert_eq!(parse_age_string("90").unwrap(), Duration::from_secs(90));
}
