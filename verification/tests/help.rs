use inquest::commands::help::HelpCommand;
use inquest::commands::Command;
use inquest::ui::{Message, Transcript};

fn outputs(ui: &Transcript) -> Vec<String> {
    ui.messages
        .iter()
        .filter_map(|m| match m {
            Message::Output(s) => Some(s.clone()),
            _ => None,
        })
        .collect()
}

fn errors(ui: &Transcript) -> Vec<String> {
    ui.messages
        .iter()
        .filter_map(|m| match m {
            Message::Error(s) => Some(s.clone()),
            Message::Warning(s) => Some(format!("Warning: {}", s)),
            _ => None,
        })
        .collect()
}

#[test]
fn test_help_command_general() {
    let mut ui = Transcript::new();
    let cmd = HelpCommand::new(None);
    let result = cmd.execute(&mut ui);

    assert_eq!(result.unwrap(), 0);
    assert!(!outputs(&ui).is_empty());
    let output = outputs(&ui).join("\n");
    assert!(output.contains("Available commands:"));
    assert!(output.contains("init"));
    assert!(output.contains("run"));
}

#[test]
fn test_help_command_specific() {
    let mut ui = Transcript::new();
    let cmd = HelpCommand::new(Some("run".to_string()));
    let result = cmd.execute(&mut ui);

    assert_eq!(result.unwrap(), 0);
    assert!(!outputs(&ui).is_empty());
    let output = outputs(&ui).join("\n");
    assert!(output.contains("inq run"));
    assert!(output.contains("--failing"));
}

#[test]
fn test_help_command_unknown() {
    let mut ui = Transcript::new();
    let cmd = HelpCommand::new(Some("nonexistent".to_string()));
    let result = cmd.execute(&mut ui);

    assert_eq!(result.unwrap(), 1);
    assert!(!errors(&ui).is_empty());
    assert!(errors(&ui)[0].contains("Unknown command"));
}

#[test]
fn every_listed_command_has_help() {
    for name in [
        "init", "load", "run", "failing", "last", "stats", "slowest", "list-tests", "quickstart",
        "help",
    ] {
        let mut ui = Transcript::new();
        let cmd = HelpCommand::new(Some(name.to_string()));
        assert_eq!(cmd.execute(&mut ui).unwrap(), 0);
        assert!(outputs(&ui)[0].starts_with(&format!("inq {} - ", name)));
    }
    assert_eq!(HelpCommand::new(None).name(), "help");
}
