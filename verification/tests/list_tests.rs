use inquest::collection::TextMap;
use inquest::commands::list_tests::{format_test_list, ListTestsCommand};
use inquest::commands::Command;
use inquest::config::file::ConfigFile;
use inquest::error::Error;
use inquest::repository::TestId;
use inquest::ui::{Message, Transcript};

fn outputs(ui: &Transcript) -> Vec<String> {
    ui.messages
        .iter()
        .filter_map(|m| match m {
            Message::Output(s) => Some(s.clone()),
            _ => None,
        })
        .collect()
}

#[test]
fn test_list_tests_command_no_config() {
    let result = ConfigFile::find_in_directory("/p", &TextMap::new());

    // Should return an error because there's no config file
    assert!(result.is_err());
    match result.unwrap_err() {
        Error::Config(msg) => {
            assert!(
                msg.contains("No configuration file found"),
                "unexpected error: {}",
                msg
            );
        }
        e => panic!("Expected Config error, got: {}", e.message()),
    }
}

#[test]
fn test_list_tests_command_with_config() {
    let mut ui = Transcript::new();
    let cmd = ListTestsCommand::new(None);
    let listed = Ok(vec![
        TestId::new("test1"),
        TestId::new("test2"),
        TestId::new("test3"),
    ]);
    let result = cmd.execute(listed, None, &mut ui);

    assert_eq!(result.unwrap(), 0);
    assert_eq!(outputs(&ui), vec!["test1", "test2", "test3"]);
}

#[test]
fn format_test_list_strips_common_prefix() {
    let ids = vec![TestId::new("a::b::test_x"), TestId::new("a::b::test_y")];
    assert_eq!(
        format_test_list(&ids, Some(r"^(.*)::[^:]+$")),
        vec![
            "# common prefix: a::b::".to_string(),
            "test_x".to_string(),
            "test_y".to_string(),
        ]
    );
}

#[test]
fn format_test_list_keeps_full_ids_when_no_common_prefix() {
    let ids = vec![TestId::new("a::b::test_x"), TestId::new("a::c::test_y")];
    assert_eq!(
        format_test_list(&ids, Some(r"^(.*)::[^:]+$")),
        vec!["a::b::test_x".to_string(), "a::c::test_y".to_string()]
    );
}

#[test]
fn format_test_list_no_group_regex_keeps_full_ids() {
    let ids = vec![TestId::new("a::b::test_x"), TestId::new("a::b::test_y")];
    assert_eq!(
        format_test_list(&ids, None),
        vec!["a::b::test_x".to_string(), "a::b::test_y".to_string()]
    );
}

#[test]
fn listing_can_be_empty_or_fail() {
    let cmd = ListTestsCommand::new(None);
    assert_eq!(cmd.name(), "list-tests");
    let mut ui = Transcript::new();
    assert_eq!(cmd.execute(Ok(vec![]), None, &mut ui).unwrap(), 0);
    assert_eq!(outputs(&ui), vec!["No tests found"]);
    let mut ui = Transcript::new();
    let failed = Err(Error::CommandExecution("exit 3".to_string()));
    assert_eq!(cmd.execute(failed, None, &mut ui).unwrap(), 1);
    assert!(matches!(
        &ui.messages[0],
        Message::Error(s) if s == "Failed to list tests: Command execution failed: exit 3"
    ));
}
