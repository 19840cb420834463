use inquest::collection::TextMap;
use inquest::commands::shard::{compute_shard, ShardCommand};
use inquest::commands::Command;
use inquest::repository::TestId;
use inquest::time::Duration;

fn names(tests: &[TestId]) -> Vec<String> {
    tests.iter().map(|t| t.as_str().to_string()).collect()
}

#[test]
fn parse_spec_one_based() {
    assert_eq!(ShardCommand::parse_spec("1/4", false).unwrap(), (0, 4));
    assert_eq!(ShardCommand::parse_spec("4/4", false).unwrap(), (3, 4));
}

#[test]
fn parse_spec_zero_based() {
    assert_eq!(ShardCommand::parse_spec("0/4", true).unwrap(), (0, 4));
    assert_eq!(ShardCommand::parse_spec("3/4", true).unwrap(), (3, 4));
}

#[test]
fn parse_spec_rejects_zero_when_one_based() {
    assert!(ShardCommand::parse_spec("0/4", false).is_err());
}

#[test]
fn parse_spec_rejects_index_at_or_above_total_when_zero_based() {
    assert!(ShardCommand::parse_spec("4/4", true).is_err());
}

#[test]
fn parse_spec_rejects_index_above_total_one_based() {
    assert!(ShardCommand::parse_spec("5/4", false).is_err());
}

#[test]
fn parse_spec_rejects_zero_total() {
    assert!(ShardCommand::parse_spec("1/0", false).is_err());
    assert!(ShardCommand::parse_spec("0/0", true).is_err());
}

#[test]
fn parse_spec_rejects_missing_slash() {
    assert!(ShardCommand::parse_spec("4", false).is_err());
}

#[test]
fn parse_spec_rejects_non_numeric() {
    assert!(ShardCommand::parse_spec("a/4", false).is_err());
    assert!(ShardCommand::parse_spec("1/b", false).is_err());
}

fn make_tests(ids: &[&str]) -> Vec<TestId> {
    ids.iter().map(|s| TestId::new(s)).collect()
}

#[test]
fn compute_shard_union_covers_all_tests_no_duplicates() {
    let tests = make_tests(&[
        "a::t1", "a::t2", "a::t3", "b::t1", "b::t2", "c::t1", "d::t1", "e::t1",
    ]);
    let durations: TextMap<Duration> = TextMap::new();
    let total = 3;

    let mut union: Vec<String> = Vec::new();
    for shard in 0..total {
        let part = compute_shard(&tests, &durations, shard, total, None).unwrap();
        union.extend(names(&part));
    }
    union.sort();

    let mut expected = names(&tests);
    expected.sort();
    assert_eq!(union, expected);
}

#[test]
fn compute_shard_is_deterministic_under_input_reordering() {
    // The same suite given in two different orders should produce the
    // same shard for any given index. This is what makes `inq shard`
    // safe to call from CI nodes whose discovery order may vary.
    let tests_a = make_tests(&["alpha::a", "beta::b", "gamma::c", "delta::d"]);
    let tests_b = make_tests(&["delta::d", "gamma::c", "beta::b", "alpha::a"]);
    let durations: TextMap<Duration> = TextMap::new();

    for shard in 0..2 {
        let part_a = compute_shard(&tests_a, &durations, shard, 2, None).unwrap();
        let part_b = compute_shard(&tests_b, &durations, shard, 2, None).unwrap();
        assert_eq!(names(&part_a), names(&part_b));
    }
}

#[test]
fn compute_shard_balances_by_duration() {
    let tests = make_tests(&["fast1", "fast2", "slow1", "slow2"]);
    let mut durations = TextMap::new();
    durations.insert("fast1", Duration::from_millis(100));
    durations.insert("fast2", Duration::from_millis(100));
    durations.insert("slow1", Duration::from_secs(5));
    durations.insert("slow2", Duration::from_secs(5));

    let s0 = compute_shard(&tests, &durations, 0, 2, None).unwrap();
    let s1 = compute_shard(&tests, &durations, 1, 2, None).unwrap();

    // Each shard ends up with exactly one slow + one fast, not two slows.
    let dur = |part: &[TestId]| -> u128 {
        part.iter()
            .filter_map(|id| durations.get(id.as_str()))
            .map(|d| d.as_nanos())
            .sum()
    };
    assert!(dur(&s0).abs_diff(dur(&s1)) < Duration::from_millis(500).as_nanos());
}

#[test]
fn compute_shard_respects_group_regex() {
    let tests = make_tests(&[
        "modA::test_a",
        "modA::test_b",
        "modA::test_c",
        "modB::test_d",
    ]);
    let durations: TextMap<Duration> = TextMap::new();
    let group = Some(r"^([^:]+)::");

    let s0 = compute_shard(&tests, &durations, 0, 2, group).unwrap();
    let s1 = compute_shard(&tests, &durations, 1, 2, group).unwrap();

    // Same module's tests must not be split across shards.
    let module_of = |t: &TestId| t.as_str().split("::").next().unwrap().to_string();
    let modules_in = |part: &[TestId]| -> std::collections::HashSet<String> {
        part.iter().map(module_of).collect()
    };
    let m0 = modules_in(&s0);
    let m1 = modules_in(&s1);
    assert!(
        m0.is_disjoint(&m1),
        "shards split a module: {:?} vs {:?}",
        m0,
        m1
    );
}

#[test]
fn compute_shard_out_of_range_errors() {
    let tests = make_tests(&["a", "b", "c"]);
    let durations: TextMap<Duration> = TextMap::new();
    assert!(compute_shard(&tests, &durations, 4, 4, None).is_err());
}

#[test]
fn compute_shard_invalid_regex_errors() {
    let tests = make_tests(&["a", "b"]);
    let durations: TextMap<Duration> = TextMap::new();
    assert!(compute_shard(&tests, &durations, 0, 2, Some("^(unclosed")).is_err());
}

#[test]
fn shard_command_name_and_help() {
    let cmd = ShardCommand::new(None, 0, 2, None);
    assert_eq!(cmd.name(), "shard");
    assert!(!cmd.help().is_empty());
}

#[test]
fn an_empty_group_pattern_switches_grouping_off() {
    let configured = Some("^(.*)$".to_string());
    let cmd = ShardCommand::new(None, 0, 2, None);
    assert_eq!(cmd.effective_group_regex(&configured), configured);
    let cmd = ShardCommand::new(None, 0, 2, Some(String::new()));
    assert_eq!(cmd.effective_group_regex(&configured), None);
    let cmd = ShardCommand::new(None, 0, 2, Some("x".to_string()));
    assert_eq!(cmd.effective_group_regex(&configured), Some("x".to_string()));
}
