use inquest::commands::repo_check::RepoCheckCommand;
use inquest::commands::Command;
use inquest::error::Error;
use inquest::ui::{Message, Transcript};

fn outputs(ui: &Transcript) -> Vec<String> {
    ui.messages
        .iter()
        .filter_map(|m| match m {
            Message::Output(s) => Some(s.clone()),
            _ => None,
        })
        .collect()
}

fn errors(ui: &Transcript) -> Vec<String> {
    ui.messages
        .iter()
        .filter_map(|m| match m {
            Message::Error(s) => Some(s.clone()),
            Message::Warning(s) => Some(format!("Warning: {}", s)),
            _ => None,
        })
        .collect()
}

#[test]
fn ok_when_no_repository() {
    let mut ui = Transcript::new();
    let cmd = RepoCheckCommand::new(None);
    let missing = Error::RepositoryNotFound("/p/.inquest".to_string());
    assert_eq!(cmd.execute(Err(missing), &mut ui).unwrap(), 0);
    assert_eq!(outputs(&ui), vec!["No repository at /p/.inquest"]);
}

#[test]
fn ok_when_repository_is_healthy() {
    let mut ui = Transcript::new();
    let cmd = RepoCheckCommand::new(None);
    assert_eq!(cmd.execute(Ok(()), &mut ui).unwrap(), 0);
    assert_eq!(outputs(&ui), vec!["Repository OK"]);
}

#[test]
fn fails_when_metadata_missing() {
    let mut ui = Transcript::new();
    let cmd = RepoCheckCommand::new(Some("/p".to_string()));
    let broken = Error::Other("metadata.db is missing".to_string());
    assert_eq!(cmd.execute(Err(broken), &mut ui).unwrap(), 1);
    assert_eq!(
        errors(&ui),
        vec!["Repository at /p/.inquest is not usable: metadata.db is missing"]
    );
}

#[test]
fn fails_when_format_missing() {
    let mut ui = Transcript::new();
    let cmd = RepoCheckCommand::new(None);
    let broken = Error::Config("format is missing".to_string());
    assert_eq!(cmd.execute(Err(broken), &mut ui).unwrap(), 1);
}

#[test]
fn repo_check_command_name_and_help() {
    let cmd = RepoCheckCommand::new(None);
    assert_eq!(cmd.name(), "repo-check");
    assert!(!cmd.help().is_empty());
}
