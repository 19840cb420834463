use inquest::commands::quickstart::QuickstartCommand;
use inquest::commands::Command;
use inquest::ui::{Message, Transcript};

fn outputs(ui: &Transcript) -> Vec<String> {
    ui.messages
        .iter()
        .filter_map(|m| match m {
            Message::Output(s) => Some(s.clone()),
            _ => None,
        })
        .collect()
}

#[test]
fn test_quickstart_command() {
    let mut ui = Transcript::new();
    let cmd = QuickstartCommand::new();
    let result = cmd.execute(&mut ui);

    assert_eq!(result.unwrap(), 0);
    assert!(!outputs(&ui).is_empty());
    let output = outputs(&ui).join("\n");
    assert!(output.contains("Quick Start"));
    assert!(output.contains("inq init"));
    assert!(output.contains("inq load"));
}

#[test]
fn quickstart_command_name_and_help() {
    let cmd = QuickstartCommand::default();
    assert_eq!(cmd.name(), "quickstart");
    assert_eq!(cmd.help(), "Show quickstart documentation for inquest");
}
