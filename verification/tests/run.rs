use inquest::commands::run::{
    CliRunOutput, ExecutionMode, RunAction, RunCommand, RunEvent, RunProgress,
};
use inquest::commands::Command;
use inquest::config::file::ConfigFile;
use inquest::collection::TextMap;
use inquest::repository::{RunId, TestId};
use inquest::ordering::TestOrder;
use inquest::ui::{Message, Transcript};

fn outputs(ui: &Transcript) -> Vec<String> {
    ui.messages
        .iter()
        .filter_map(|m| match m {
            Message::Output(s) => Some(s.clone()),
            _ => None,
        })
        .collect()
}

fn ids(names: &[&str]) -> Vec<TestId> {
    names.iter().map(|n| TestId::new(n)).collect()
}

fn names(tests: &[TestId]) -> Vec<String> {
    tests.iter().map(|t| t.as_str().to_string()).collect()
}

fn opened(cmd: &RunCommand, ui: &mut Transcript) -> (RunProgress, RunAction) {
    let mut p = cmd.begin();
    let action = cmd
        .advance_on(&mut p, RunEvent::Started(true), 4, ui)
        .unwrap();
    assert!(matches!(action, RunAction::OpenRepository { .. }));
    let action = cmd
        .advance_on(&mut p, RunEvent::Opened(None), 4, ui)
        .unwrap();
    (p, action)
}

#[test]
fn test_run_command_no_config() {
    let mut ui = Transcript::new();
    let cmd = RunCommand::new(None);
    let mut p = cmd.begin();
    let action = cmd.advance(&mut p, RunEvent::Started(false), &mut ui).unwrap();
    assert!(matches!(action, RunAction::OpenRepository { create: false }));
    let result = ConfigFile::find_in_directory(".", &TextMap::new());

    assert!(result.is_err());
}

#[test]
fn test_run_command_with_failing_only_no_failures() {
    let mut ui = Transcript::new();
    let cmd = RunCommand::with_failing_only(None);
    let (mut p, action) = opened(&cmd, &mut ui);
    assert!(matches!(action, RunAction::ReadFailing));
    let result = cmd.advance(&mut p, RunEvent::Tests(vec![]), &mut ui).unwrap();

    match result {
        RunAction::Finish(out) => {
            assert_eq!(out.exit_code, 0);
            assert!(out.run_id.is_none());
        }
        other => panic!("unexpected: {:?}", other),
    }
    assert_eq!(outputs(&ui).len(), 1);
    assert_eq!(outputs(&ui)[0], "No failing tests to run");
}

#[test]
fn test_run_command_name() {
    let cmd = RunCommand::new(None);
    assert_eq!(cmd.name(), "run");
}

#[test]
fn run_without_a_run_has_no_id() {
    let out = CliRunOutput::no_run(3);
    assert_eq!(out.exit_code, 3);
    assert!(out.run_id.is_none());
}

#[test]
fn filters_keep_the_tests_that_match() {
    let mut ui = Transcript::new();
    let mut cmd = RunCommand::new(None);
    cmd.test_filters = Some(vec!["^a".to_string(), "z$".to_string()]);
    cmd.concurrency = Some(3);
    let (mut p, action) = opened(&cmd, &mut ui);
    assert!(matches!(action, RunAction::ListTests));
    let known = ids(&["apple", "berry", "fizz", "nut"]);
    let action = cmd
        .advance_on(&mut p, RunEvent::Tests(known), 4, &mut ui)
        .unwrap();
    match action {
        RunAction::Execute { mode, selection } => {
            assert_eq!(mode, ExecutionMode::Parallel(3));
            assert_eq!(names(&selection.unwrap()), vec!["apple", "fizz"]);
        }
        other => panic!("unexpected: {:?}", other),
    }
}

#[test]
fn a_wrong_filter_is_told() {
    let mut ui = Transcript::new();
    let mut cmd = RunCommand::new(None);
    cmd.test_filters = Some(vec!["(".to_string()]);
    let mut p = cmd.begin();
    cmd.advance_on(&mut p, RunEvent::Started(true), 1, &mut ui).unwrap();
    let err = cmd
        .advance_on(&mut p, RunEvent::Opened(None), 1, &mut ui)
        .unwrap_err();
    assert!(
        err.message().starts_with("Configuration error: Invalid test filter regex '(': "),
        "got: {}",
        err.message()
    );
}

#[test]
fn auto_writes_a_configuration_first() {
    let mut ui = Transcript::new();
    let mut cmd = RunCommand::new(None);
    cmd.auto = true;
    let mut p = cmd.begin();
    let action = cmd.advance(&mut p, RunEvent::Started(false), &mut ui).unwrap();
    assert!(matches!(action, RunAction::AutoConfigure));
    let action = cmd.advance(&mut p, RunEvent::AutoConfigured(7), &mut ui).unwrap();
    assert!(matches!(action, RunAction::Finish(out) if out.exit_code == 7));
}

#[test]
fn tests_are_put_in_the_configured_order() {
    let mut ui = Transcript::new();
    let cmd = RunCommand::new(None);
    let mut p = cmd.begin();
    cmd.advance_on(&mut p, RunEvent::Started(true), 1, &mut ui).unwrap();
    let action = cmd
        .advance_on(
            &mut p,
            RunEvent::Opened(Some("failing-first".to_string())),
            1,
            &mut ui,
        )
        .unwrap();
    assert!(matches!(action, RunAction::ListTests));
    let action = cmd
        .advance_on(&mut p, RunEvent::Tests(ids(&["b", "a"])), 1, &mut ui)
        .unwrap();
    match action {
        RunAction::OrderTests { order, tests, with_failing } => {
            assert_eq!(order, TestOrder::FailingFirst);
            assert_eq!(names(&tests), vec!["b", "a"]);
            assert!(with_failing);
        }
        other => panic!("unexpected: {:?}", other),
    }
    let action = cmd
        .advance_on(&mut p, RunEvent::Tests(ids(&["a", "b"])), 1, &mut ui)
        .unwrap();
    assert!(matches!(action, RunAction::AskConcurrency));
    let action = cmd
        .advance_on(&mut p, RunEvent::Concurrency(Some(2)), 1, &mut ui)
        .unwrap();
    assert!(matches!(action, RunAction::Execute { mode: ExecutionMode::Parallel(2), .. }));
    assert_eq!(outputs(&ui), vec!["Using concurrency from test_run_concurrency: 2"]);
}

#[test]
fn until_failure_runs_again() {
    let mut ui = Transcript::new();
    let mut cmd = RunCommand::new(None);
    cmd.until_failure = true;
    cmd.max_iterations = Some(2);
    cmd.concurrency = Some(0);
    let (mut p, action) = opened(&cmd, &mut ui);
    assert!(matches!(action, RunAction::Execute { mode: ExecutionMode::Parallel(4), .. }));
    let ran = |code: i32, id: &str| RunEvent::Executed {
        exit_code: code,
        run_id: RunId::new(id),
    };
    let action = cmd.advance_on(&mut p, ran(0, "0"), 4, &mut ui).unwrap();
    assert!(matches!(action, RunAction::Execute { .. }));
    let action = cmd.advance_on(&mut p, ran(0, "1"), 4, &mut ui).unwrap();
    assert!(matches!(action, RunAction::Finish(out) if out.exit_code == 0));
    assert_eq!(
        outputs(&ui),
        vec![
            "Auto-detected 4 CPUs for parallel execution",
            "\n=== Iteration 1 ===",
            "\n=== Iteration 2 ===",
            "\nReached maximum iteration limit (2), stopping",
        ]
    );
}

#[test]
fn isolated_runs_need_tests() {
    let mut ui = Transcript::new();
    let mut cmd = RunCommand::new(None);
    cmd.isolated = true;
    cmd.concurrency = Some(1);
    let (mut p, action) = opened(&cmd, &mut ui);
    assert!(matches!(action, RunAction::ListTests));
    let action = cmd.advance_on(&mut p, RunEvent::Tests(vec![]), 1, &mut ui).unwrap();
    assert!(matches!(action, RunAction::Finish(_)));
    assert_eq!(outputs(&ui), vec!["No tests to run"]);
}

#[test]
fn a_list_narrows_the_failing_tests() {
    let mut ui = Transcript::new();
    let mut cmd = RunCommand::with_failing_only(None);
    cmd.load_list = Some("list.txt".to_string());
    cmd.subunit = true;
    let (mut p, action) = opened(&cmd, &mut ui);
    assert!(matches!(action, RunAction::ReadFailing));
    let action = cmd
        .advance_on(&mut p, RunEvent::Tests(ids(&["a", "b", "c"])), 1, &mut ui)
        .unwrap();
    assert!(matches!(action, RunAction::ReadList(path) if path == "list.txt"));
    let action = cmd
        .advance_on(&mut p, RunEvent::Tests(ids(&["c", "d", "a"])), 1, &mut ui)
        .unwrap();
    match action {
        RunAction::Execute { mode, selection } => {
            assert_eq!(mode, ExecutionMode::Subunit);
            assert_eq!(names(&selection.unwrap()), vec!["a", "c"]);
        }
        other => panic!("unexpected: {:?}", other),
    }
}

#[test]
fn starts_choose_tests() {
    let mut ui = Transcript::new();
    let mut cmd = RunCommand::new(None);
    cmd.starting_with = Some(vec!["bt".to_string()]);
    cmd.concurrency = Some(1);
    let (mut p, action) = opened(&cmd, &mut ui);
    assert!(matches!(action, RunAction::ListTests));
    let known = ids(&["breezy.tests.a", "breezy.testsuite", "breezy.tests", "lib.x"]);
    let action = cmd
        .advance_on(&mut p, RunEvent::Tests(known), 4, &mut ui)
        .unwrap_err();
    assert!(action.message().contains("ambiguous"), "got: {}", action.message());

    let mut ui = Transcript::new();
    let (mut p, _) = opened(&cmd, &mut ui);
    let known = ids(&["breezy.tests.a", "breezy.tests.b.c", "breezy.tests", "lib.x"]);
    let action = cmd
        .advance_on(&mut p, RunEvent::Tests(known), 4, &mut ui)
        .unwrap();
    match action {
        RunAction::Execute { mode, selection } => {
            assert_eq!(mode, ExecutionMode::Serial);
            assert_eq!(
                names(&selection.unwrap()),
                vec!["breezy.tests.a", "breezy.tests.b.c", "breezy.tests"]
            );
        }
        other => panic!("unexpected: {:?}", other),
    }
    assert_eq!(outputs(&ui), vec!["Expanded 'bt' to 'breezy.tests'"]);

    cmd.starting_with = Some(vec![]);
    let mut ui = Transcript::new();
    let (_, action) = opened(&cmd, &mut ui);
    assert!(matches!(action, RunAction::Execute { selection: None, .. }));
}
