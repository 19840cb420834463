use inquest::commands::init::InitCommand;
use inquest::commands::Command;
use inquest::error::Error;
use inquest::ui::{Message, Transcript};

fn outputs(ui: &Transcript) -> Vec<String> {
    ui.messages
        .iter()
        .filter_map(|m| match m {
            Message::Output(s) => Some(s.clone()),
            _ => None,
        })
        .collect()
}

fn errors(ui: &Transcript) -> Vec<String> {
    ui.messages
        .iter()
        .filter_map(|m| match m {
            Message::Error(s) => Some(s.clone()),
            Message::Warning(s) => Some(format!("Warning: {}", s)),
            _ => None,
        })
        .collect()
}

#[test]
fn test_init_command() {
    let mut ui = Transcript::new();

    let cmd = InitCommand::new(None);
    assert!(cmd.begin(false, &mut ui));
    let result = cmd.finish(Ok(()), &mut ui);

    assert_eq!(result.unwrap(), 0);
    assert_eq!(outputs(&ui).len(), 1);
    assert!(outputs(&ui)[0].contains("Initialized"));
}

#[test]
fn test_init_command_already_exists() {
    let cmd = InitCommand::new(None);

    let mut ui = Transcript::new();
    assert!(cmd.begin(false, &mut ui));
    let exists = Error::RepositoryExists(".inquest".to_string());
    let result = cmd.finish(Err(exists), &mut ui);

    assert_eq!(result.unwrap(), 1);
    assert_eq!(errors(&ui).len(), 1);
    assert!(errors(&ui)[0].contains("Failed"));
    assert_eq!(
        errors(&ui)[0],
        "Failed to initialize repository: Repository already exists: .inquest"
    );
}

#[test]
fn test_init_command_legacy_testrepository_exists() {
    let mut ui = Transcript::new();
    let cmd = InitCommand::new(None);
    assert!(!cmd.begin(true, &mut ui));

    assert_eq!(errors(&ui).len(), 1);
    assert!(
        errors(&ui)[0].contains("inq upgrade"),
        "got: {}",
        errors(&ui)[0]
    );
}

#[test]
fn init_command_name_and_help() {
    let cmd = InitCommand::new(None);
    assert_eq!(cmd.name(), "init");
    assert_eq!(cmd.help(), "Initialize a new test repository");
}
