use inquest::commands::summarize::{
    cluster_failures, common_suffix_len, fingerprint, is_anchor_line, normalize_line, pick_text,
    should_merge, SummarizeCommand, DEFAULT_SAMPLES, MAX_FINGERPRINT_LINES,
};
use inquest::commands::Command;
use inquest::repository::{RunId, TestId, TestResult, TestRun, TestStatus};
use inquest::store::Store;
use inquest::time::Timestamp;
use inquest::union_find::UnionFind;
use inquest::ui::{Message, Transcript};

fn outputs(ui: &Transcript) -> Vec<String> {
    ui.messages
        .iter()
        .filter_map(|m| match m {
            Message::Output(s) => Some(s.clone()),
            _ => None,
        })
        .collect()
}

fn failure_with_details(id: &str, details: &str) -> TestResult {
    TestResult {
        test_id: TestId::new(id),
        status: TestStatus::Failure,
        duration: None,
        message: Some("failed".to_string()),
        details: Some(details.to_string()),
        tags: vec![],
    }
}

#[test]
fn normalize_strips_paths_and_numbers() {
    assert_eq!(
        normalize_line(r#"  File "/home/u/foo/bar.py", line 42, in test_foo"#),
        r#"  File "<path>", line <n>, in <fn>"#
    );
    assert_eq!(
        normalize_line("at 0xdeadbeef in module"),
        "at <hex> in module"
    );
    assert_eq!(
        normalize_line("thread 'main' panicked at src/lib.rs:42:5"),
        "thread 'main' panicked at <path>:<n>"
    );
    assert_eq!(normalize_line("took 1.234s"), "took <dur>");
    assert_eq!(normalize_line("pid 12345 exited"), "pid <n> exited");
    // Short integers preserved (often part of the failure itself).
    assert_eq!(
        normalize_line("AssertionError: 3 != 4"),
        "AssertionError: 3 != 4"
    );
}

#[test]
fn anchor_recognises_common_failure_lines() {
    assert!(is_anchor_line("AssertionError: 1 != 2"));
    assert!(is_anchor_line("ValueError: bad input"));
    assert!(is_anchor_line("thread 'main' panicked at src/lib.rs:42:5"));
    assert!(is_anchor_line("assertion failed: x == y"));
    assert!(is_anchor_line("FAILED: my_test"));
    assert!(!is_anchor_line("    at frame 1"));
    assert!(!is_anchor_line("File \"a.py\", line 1, in foo"));
}

#[test]
fn fingerprint_anchors_at_last_marker() {
    let trace = "\
some preamble
  File \"/x/a.py\", line 1, in f
ValueError: original
During handling of the above another exception occurred:
  File \"/x/b.py\", line 2, in g
RuntimeError: proximate cause
";
    let fp = fingerprint(trace);
    // Anchor is the proximate cause (last `*Error:` line), so the tail
    // ends there even though `ValueError: original` came first.
    assert_eq!(fp.last().unwrap(), "RuntimeError: proximate cause");
}

#[test]
fn fingerprint_falls_back_to_last_line_when_no_anchor() {
    let trace = "first\nsecond\n  third\n\n";
    let fp = fingerprint(trace);
    assert_eq!(fp.last().unwrap(), "  third");
}

#[test]
fn fingerprint_caps_length() {
    let many = (0..30)
        .map(|i| format!("frame {}", i))
        .collect::<Vec<_>>()
        .join("\n");
    let fp = fingerprint(&many);
    assert_eq!(fp.len(), MAX_FINGERPRINT_LINES);
    assert_eq!(fp.last().unwrap(), "frame 29");
}

#[test]
fn merges_failures_differing_only_in_paths_and_line_numbers() {
    let a = failure_with_details(
        "tests.a",
        "  File \"/repo/tests/a.py\", line 12, in test_a\n\
         AssertionError: boom",
    );
    let b = failure_with_details(
        "tests.b",
        "  File \"/repo/tests/b.py\", line 47, in test_b\n\
         AssertionError: boom",
    );
    let groups = cluster_failures(&vec![&a, &b]);
    assert_eq!(groups.len(), 1, "got groups: {:?}", groups[0].shared_tail);
    assert_eq!(groups[0].test_ids.len(), 2);
    assert!(groups[0]
        .shared_tail
        .iter()
        .any(|l| l.contains("AssertionError: boom")));
}

#[test]
fn does_not_merge_failures_with_different_anchors() {
    let a = failure_with_details("tests.a", "AssertionError: boom");
    let b = failure_with_details("tests.b", "ValueError: nope");
    let groups = cluster_failures(&vec![&a, &b]);
    assert_eq!(groups.len(), 2);
}

#[test]
fn does_not_merge_when_only_a_single_line_overlaps() {
    // Both end with the exact same anchor line, but with completely
    // different preceding frames — too thin to call them the same.
    let a = failure_with_details(
        "tests.a",
        "  File \"/repo/x.py\", line 1, in f\n\
            AssertionError: boom",
    );
    let b = failure_with_details("tests.b", "AssertionError: boom");
    // a's fingerprint has 2 lines, b's has 1; overlap is 1, MIN_OVERLAP is 2,
    // so they should not merge despite the identical anchor.
    let groups = cluster_failures(&vec![&a, &b]);
    assert_eq!(groups.len(), 2);
}

#[test]
fn transitive_merging_groups_via_chain() {
    // a~b on lines [Y, Z]; b~c on lines [X, Y]; union-find should put all three
    // together even though a and c only directly share [Y].
    let a = failure_with_details("a", "frame_a\nshared_y\nshared_z");
    let b = failure_with_details("b", "shared_x\nshared_y\nshared_z");
    let c = failure_with_details("c", "shared_x\nshared_y\nframe_c_extra");
    // a and b share [shared_y, shared_z] (2); b and c share [shared_x, shared_y]
    // depending on alignment. Let's check what we actually get — at minimum,
    // a-b should merge.
    let groups = cluster_failures(&vec![&a, &b, &c]);
    // We expect a and b clustered. c may or may not join depending on overlap;
    // the important behaviour we test is: the "merged-via-shared-suffix" pair
    // gets reported with its actual shared lines, not a hardcoded N.
    let big = groups.iter().find(|g| g.test_ids.len() >= 2).unwrap();
    assert!(big
        .shared_tail
        .last()
        .map(|l| l == "shared_z")
        .unwrap_or(false));
}

#[test]
fn summarize_command_no_failures() {
    let mut repo = Store::new();

    let mut run = TestRun::new(RunId::new("0"));
    run.timestamp = Timestamp { seconds: 1000000000, nanos: 0 };
    run.add_result(TestResult::success("test1"));
    repo.insert_test_run(run);

    let mut ui = Transcript::new();
    let cmd = SummarizeCommand::new(
        None,
        None,
        DEFAULT_SAMPLES,
    );
    let result = cmd.execute(&repo, &mut ui).unwrap();
    assert_eq!(result, 0);
    assert!(outputs(&ui).iter().any(|s| s.contains("No failing tests")));
}

#[test]
fn summarize_command_clusters_path_variants() {
    let mut repo = Store::new();

    let mut run = TestRun::new(RunId::new("0"));
    run.timestamp = Timestamp { seconds: 1000000000, nanos: 0 };
    for (i, path) in ["a.py", "b.py", "c.py"].iter().enumerate() {
        run.add_result(failure_with_details(
            &format!("pkg.t{}", i),
            &format!(
                "  File \"/repo/{}\", line {}, in test\n  AssertionError: boom",
                path,
                10 + i
            ),
        ));
    }
    run.add_result(failure_with_details("pkg.other", "ValueError: nope"));
    run.add_result(TestResult::success("pkg.ok"));
    repo.insert_test_run(run);

    let mut ui = Transcript::new();
    let cmd = SummarizeCommand::new(
        None,
        None,
        DEFAULT_SAMPLES,
    );
    let result = cmd.execute(&repo, &mut ui).unwrap();
    assert_eq!(result, 1);

    let joined = outputs(&ui).join("\n");
    assert!(
        joined.contains("4 failing test(s) in run 0, 2 distinct failure(s):"),
        "got: {}",
        joined,
    );
    assert!(joined.contains("3 tests:"));
    assert!(joined.contains("AssertionError: boom"));
    assert!(joined.contains("ValueError: nope"));
}

#[test]
fn summarize_command_truncates_sample_list() {
    let mut repo = Store::new();

    let mut run = TestRun::new(RunId::new("0"));
    run.timestamp = Timestamp { seconds: 1000000000, nanos: 0 };
    for i in 0..7 {
        run.add_result(failure_with_details(
            &format!("pkg.t{}", i),
            &format!(
                "  File \"/repo/x.py\", line {}, in test\n  AssertionError: same",
                10 + i
            ),
        ));
    }
    repo.insert_test_run(run);

    let mut ui = Transcript::new();
    let cmd = SummarizeCommand::new(None, None, 3);
    cmd.execute(&repo, &mut ui).unwrap();

    let joined = outputs(&ui).join("\n");
    assert!(joined.contains("7 tests:"));
    assert!(joined.contains("… and 4 more"), "got: {}", joined);
}

#[test]
fn summarize_command_name_and_help() {
    let cmd = SummarizeCommand::new(None, None, 1);
    assert_eq!(cmd.name(), "summarize");
    assert!(!cmd.help().is_empty());
}

#[test]
fn suffixes_are_counted_from_the_end() {
    let v = |s: &[&str]| -> Vec<String> { s.iter().map(|x| x.to_string()).collect() };
    assert_eq!(common_suffix_len(&v(&["a", "b", "c"]), &v(&["x", "b", "c"])), 2);
    assert_eq!(common_suffix_len(&v(&["a"]), &v(&["b"])), 0);
    assert_eq!(common_suffix_len(&v(&[]), &v(&["b"])), 0);
    assert!(should_merge(&v(&["a", "b", "c"]), &v(&["x", "b", "c"])));
    assert!(!should_merge(&v(&["a", "b"]), &v(&["x", "b"])));
}

#[test]
fn details_go_before_messages() {
    let r = failure_with_details("t", "trace");
    assert_eq!(pick_text(&r), "trace");
    assert_eq!(pick_text(&TestResult::failure("t", "msg")), "msg");
}

#[test]
fn pairs_connect_numbers() {
    let mut uf = UnionFind::new(7);
    uf.union(0, 1);
    assert_eq!(uf.find(0), uf.find(1));
    uf.union(2, 3);
    assert_ne!(uf.find(1), uf.find(2));
    uf.union(3, 1);
    uf.union(5, 4);
    uf.union(4, 5);
    let found: Vec<usize> = (0..7).map(|i| uf.find(i)).collect();
    for i in 0..7 {
        assert_eq!(uf.find(found[i]), found[i]);
        for j in 0..7 {
            let part = |n: usize| if n < 4 { 0 } else if n < 6 { 1 } else { 2 };
            assert_eq!(found[i] == found[j], part(i) == part(j));
        }
    }
}
