use inquest::commands::Command;

struct MockCommand;

impl Command for MockCommand {
    fn name(&self) -> &str {
        "mock"
    }

    fn help(&self) -> &str {
        "A mock command for testing"
    }
}

#[test]
fn test_command_trait() {
    let cmd = MockCommand;
    assert_eq!(cmd.name(), "mock");
    assert_eq!(cmd.help(), "A mock command for testing");
}
