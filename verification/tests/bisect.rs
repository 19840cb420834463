use inquest::commands::bisect::{
    check_start, conclude, read_commit, sh_quote, short_commit, Anchor, BisectCommand,
    ProcessOutput,
};
use inquest::commands::Command;
use inquest::error::Error;
use inquest::repository::{RunId, RunMetadata, TestResult, TestRun};
use inquest::store::Store;
use inquest::time::Timestamp;
use inquest::ui::{Message, Transcript};

fn outputs(ui: &Transcript) -> Vec<String> {
    ui.messages
        .iter()
        .filter_map(|m| match m {
            Message::Output(s) => Some(s.clone()),
            _ => None,
        })
        .collect()
}

fn anchor(a: &Option<Anchor>) -> Option<(&str, &str)> {
    a.as_ref().map(|x| (x.run.as_str(), x.commit.as_str()))
}

fn insert_run(
    repo: &mut Store,
    run_idx: i64,
    results: Vec<TestResult>,
    commit: Option<&str>,
    dirty: bool,
) -> RunId {
    let mut run = TestRun::new(RunId::new(&run_idx.to_string()));
    run.timestamp = Timestamp { seconds: 1_000_000_000 + run_idx, nanos: 0 };
    for r in results {
        run.add_result(r);
    }
    let id = repo.insert_test_run(run);
    repo.set_run_metadata(
        &id,
        RunMetadata {
            git_commit: commit.map(|s| s.to_string()),
            git_dirty: Some(dirty),
            ..RunMetadata::default()
        },
    )
    .unwrap();
    id
}

#[test]
fn test_bisect_command_name_and_help() {
    let cmd = BisectCommand::new(None, "test_foo".to_string());
    assert_eq!(cmd.name(), "bisect");
    assert!(!cmd.help().is_empty());
}

#[test]
fn test_scan_history_finds_last_good_and_bad() {
    let mut repo = Store::new();

    // Run 0: target passes at commit aaa
    insert_run(
        &mut repo,
        0,
        vec![TestResult::success("test_foo")],
        Some("aaaaaaaaaaaaaaaaaaaaaaaaaaaaaaaaaaaaaaaa"),
        false,
    );
    // Run 1: target passes at commit bbb (newer good)
    insert_run(
        &mut repo,
        1,
        vec![TestResult::success("test_foo")],
        Some("bbbbbbbbbbbbbbbbbbbbbbbbbbbbbbbbbbbbbbbb"),
        false,
    );
    // Run 2: target fails at commit ccc
    insert_run(
        &mut repo,
        2,
        vec![TestResult::failure("test_foo", "boom")],
        Some("cccccccccccccccccccccccccccccccccccccccc"),
        false,
    );
    // Run 3: target fails again at commit ddd (newer bad)
    insert_run(
        &mut repo,
        3,
        vec![TestResult::failure("test_foo", "boom")],
        Some("dddddddddddddddddddddddddddddddddddddddd"),
        false,
    );

    let cmd = BisectCommand::new(
        None,
        "test_foo".to_string(),
    );
    let scan = cmd.scan_history(&repo);

    assert_eq!(anchor(&scan.last_good), Some(("1", "bbbbbbbbbbbbbbbbbbbbbbbbbbbbbbbbbbbbbbbb")));
    assert_eq!(anchor(&scan.last_bad), Some(("3", "dddddddddddddddddddddddddddddddddddddddd")));
}

#[test]
fn test_scan_history_skips_dirty_runs() {
    let mut repo = Store::new();

    // Newest passing run is dirty; older passing run is clean.
    insert_run(
        &mut repo,
        0,
        vec![TestResult::success("test_foo")],
        Some("aaaaaaaaaaaaaaaaaaaaaaaaaaaaaaaaaaaaaaaa"),
        false,
    );
    insert_run(
        &mut repo,
        1,
        vec![TestResult::success("test_foo")],
        Some("bbbbbbbbbbbbbbbbbbbbbbbbbbbbbbbbbbbbbbbb"),
        true, // dirty — should be skipped
    );

    let cmd = BisectCommand::new(
        None,
        "test_foo".to_string(),
    );
    let scan = cmd.scan_history(&repo);

    assert_eq!(anchor(&scan.last_good), Some(("0", "aaaaaaaaaaaaaaaaaaaaaaaaaaaaaaaaaaaaaaaa")));
}

#[test]
fn test_scan_history_skips_runs_without_target() {
    let mut repo = Store::new();

    // Run that doesn't include test_foo at all.
    insert_run(
        &mut repo,
        0,
        vec![TestResult::success("test_other")],
        Some("aaaaaaaaaaaaaaaaaaaaaaaaaaaaaaaaaaaaaaaa"),
        false,
    );
    // Run that does.
    insert_run(
        &mut repo,
        1,
        vec![TestResult::success("test_foo")],
        Some("bbbbbbbbbbbbbbbbbbbbbbbbbbbbbbbbbbbbbbbb"),
        false,
    );

    let cmd = BisectCommand::new(
        None,
        "test_foo".to_string(),
    );
    let scan = cmd.scan_history(&repo);

    assert_eq!(anchor(&scan.last_good), Some(("1", "bbbbbbbbbbbbbbbbbbbbbbbbbbbbbbbbbbbbbbbb")));
    assert!(scan.last_bad.is_none());
}

#[test]
fn test_scan_history_skips_runs_without_commit() {
    let mut repo = Store::new();

    insert_run(
        &mut repo,
        0,
        vec![TestResult::success("test_foo")],
        None,
        false,
    );

    let cmd = BisectCommand::new(
        None,
        "test_foo".to_string(),
    );
    let scan = cmd.scan_history(&repo);
    assert!(scan.last_good.is_none());
    assert!(scan.last_bad.is_none());
}

#[test]
fn test_short_commit() {
    assert_eq!(short_commit("abc"), "abc");
    assert_eq!(
        short_commit("aaaaaaaaaaaaaaaaaaaaaaaaaaaaaaaaaaaaaaaa"),
        "aaaaaaaaaaaa"
    );
}

#[test]
fn test_sh_quote_simple() {
    assert_eq!(sh_quote("foo"), "'foo'");
    assert_eq!(sh_quote("foo bar"), "'foo bar'");
}

#[test]
fn test_sh_quote_embedded_single_quote() {
    // The 'don'\''t' encoding is the canonical POSIX form: close the
    // outer quote, escape one literal apostrophe, reopen.
    assert_eq!(sh_quote("don't"), "'don'\\''t'");
}

#[test]
fn short_commit_cuts_at_twelve_bytes() {
    assert_eq!(short_commit("0123456789ab"), "0123456789ab");
    assert_eq!(short_commit("0123456789abc"), "0123456789ab");
}

#[test]
fn chosen_commits_come_from_history_or_from_the_command() {
    let mut repo = Store::new();
    insert_run(&mut repo, 0, vec![TestResult::success("t")], Some("aaa"), false);
    insert_run(&mut repo, 1, vec![TestResult::failure("t", "boom")], Some("bbb"), false);

    let mut ui = Transcript::new();
    let cmd = BisectCommand::new(None, "t".to_string());
    let choice = cmd.choose_commits(&repo, &mut ui).unwrap();
    assert_eq!(choice.bad, "bbb");
    assert_eq!(choice.good, "aaa");
    assert_eq!(
        outputs(&ui),
        vec![
            "Bisecting test: t",
            "Using run 1 (bbb) as the bad commit (target test failed)",
            "Using run 0 (aaa) as the good commit (target test passed)",
        ]
    );

    let mut ui = Transcript::new();
    let cmd = BisectCommand::new(None, "other".to_string())
        .with_good_commit(Some("ccc".to_string()));
    let choice = cmd.choose_commits(&repo, &mut ui).unwrap();
    assert_eq!(choice.bad, "HEAD");
    assert_eq!(choice.good, "ccc");

    let mut ui = Transcript::new();
    let cmd =
        BisectCommand::new(None, "other".to_string()).with_bad_commit(Some("ddd".to_string()));
    let err = cmd.choose_commits(&repo, &mut ui).unwrap_err();
    assert_eq!(
        err.message(),
        "No recorded run found where 'other' passed. Pass a known-good commit explicitly, or \
         record a passing run on an older commit first."
    );
}

#[test]
fn equal_commits_leave_nothing_to_search() {
    let cmd = BisectCommand::new(None, "t".to_string());
    assert!(cmd.check_commits("abc", "def").is_ok());
    assert_eq!(
        cmd.check_commits("abc", "abc").unwrap_err().message(),
        "Good and bad commits are identical (abc); nothing to bisect"
    );
    let mut ui = Transcript::new();
    assert_eq!(cmd.start("abc", "def", &mut ui), vec!["start", "abc", "def"]);
    assert_eq!(outputs(&ui), vec!["Starting git bisect: bad=abc, good=def"]);
}

#[test]
fn script_runs_the_escaped_test() {
    let cmd = BisectCommand::new(Some("/a b".to_string()), "pkg.t[1]".to_string());
    let script = cmd.build_bisect_script("/usr/bin/inq");
    assert!(script.starts_with("#!/bin/sh\n"));
    assert!(
        script.contains("'/usr/bin/inq' -C '/a b' run '^pkg\\.t\\[1\\]$' >/dev/null 2>&1\n"),
        "got: {}",
        script
    );
    assert!(script.ends_with("exit 125\nfi\n"));
    let bare = BisectCommand::new(None, "t".to_string()).build_bisect_script("inq");
    assert!(bare.contains("'inq'  run '^t$' >"), "got: {}", bare);
}

#[test]
fn git_output_is_read() {
    let ok = ProcessOutput {
        code: Some(0),
        stdout: "abc\n".to_string(),
        stderr: String::new(),
    };
    assert_eq!(read_commit("HEAD", &ok).unwrap(), "abc");
    assert!(check_start(&ok).is_ok());
    let bad = ProcessOutput {
        code: Some(128),
        stdout: String::new(),
        stderr: " no such commit \n".to_string(),
    };
    assert_eq!(
        read_commit("x", &bad).unwrap_err().message(),
        "Command execution failed: git rev-parse x failed: no such commit"
    );
    assert_eq!(
        check_start(&bad).unwrap_err().message(),
        "Command execution failed: git bisect start failed: no such commit"
    );
}

#[test]
fn conclusion_passes_output_and_exit_code_on() {
    let mut ui = Transcript::new();
    let out = ProcessOutput {
        code: Some(3),
        stdout: "found\n".to_string(),
        stderr: "  ".to_string(),
    };
    assert_eq!(conclude(Ok(out), None, &mut ui).unwrap(), 3);
    assert_eq!(outputs(&ui), vec!["found"]);

    let mut ui = Transcript::new();
    let killed = ProcessOutput {
        code: None,
        stdout: String::new(),
        stderr: String::new(),
    };
    let reset = Error::Other("stuck".to_string());
    assert_eq!(conclude(Ok(killed), Some(reset), &mut ui).unwrap(), 1);
    assert!(matches!(&ui.messages[0], Message::Error(s) if s == "git bisect reset failed: stuck"));

    let mut ui = Transcript::new();
    let failed = conclude(Err(Error::Other("gone".to_string())), None, &mut ui);
    assert!(failed.is_err());
    assert!(matches!(&ui.messages[0], Message::Error(s) if s == "git bisect run failed: gone"));
}
