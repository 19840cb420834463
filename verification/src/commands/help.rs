//! Showing how commands are used.

use vstd::prelude::*;
use vstd::string::*;

use crate::commands::Command;
use crate::error::Result;
use crate::text::compose::cat2;
use crate::text::order::text_eq;
use crate::ui::{Line, Transcript};

verus! {

/// Command that shows how a command is used, or which commands there are.
#[derive(Debug)]
pub struct HelpCommand {
    /// The command to show.
    pub command_name: Option<String>,
}

/// Which commands there are.
pub const HELP_GENERAL: &'static str = r#"inq - Test Repository CLI

Usage: inq <command> [options]

Available commands:
  init          Initialize a new test repository
  load          Load test results from a subunit stream
  run           Run tests and load results
  failing       Show currently failing tests
  last          Show results from the last test run
  stats         Show repository statistics
  slowest       Show the slowest tests
  list-tests    List available tests
  quickstart    Show quickstart documentation
  help          Show this help message

Run 'inq help <command>' for more information on a specific command.

Examples:
  inq init
  inq run
  inq failing --list
  inq help run
"#;

/// How `init` is used.
pub const HELP_INIT: &'static str = r#"inq init - Initialize a new test repository

Usage: inq init [PATH]

Creates a new test repository in the .testrepository directory.
If PATH is provided, initializes the repository at that location.

Examples:
  inq init              # Initialize in current directory
  inq init /path/to/dir # Initialize at specific path
"#;

/// How `load` is used.
pub const HELP_LOAD: &'static str = r#"inq load - Load test results from a subunit stream

Usage: inq load [OPTIONS]

Reads test results from stdin in subunit format and stores them in the repository.

Options:
  --partial    Add/update failing tests without clearing previous failures

Examples:
  python -m subunit.run discover | inq load
  inq load < test_results.subunit
  inq load --partial < new_results.subunit
"#;

/// How `run` is used.
pub const HELP_RUN: &'static str = r#"inq run - Run tests and load results

Usage: inq run [OPTIONS]

Executes the test command from .testr.conf and loads the results.

Options:
  --failing         Only run tests that failed in the last run
  --load-list FILE  Run only tests listed in FILE
  --partial         Keep previous failures and add new ones

Examples:
  inq run
  inq run --failing
  inq run --load-list tests_to_run.txt
"#;

/// How `failing` is used.
pub const HELP_FAILING: &'static str = r#"inq failing - Show currently failing tests

Usage: inq failing [OPTIONS]

Lists all tests that failed in the most recent run.

Options:
  --list      Show test IDs only (one per line)
  --subunit   Output in subunit format

Examples:
  inq failing
  inq failing --list
  inq failing --subunit
"#;

/// How `last` is used.
pub const HELP_LAST: &'static str = r#"inq last - Show results from the last test run

Usage: inq last [OPTIONS]

Displays test results from the most recent run.

Options:
  --subunit   Output in subunit format

Examples:
  inq last
  inq last --subunit
"#;

/// How `stats` is used.
pub const HELP_STATS: &'static str = r#"inq stats - Show repository statistics

Usage: inq stats

Displays statistics about the test repository, including total runs,
test counts, and success/failure rates.

Example:
  inq stats
"#;

/// How `slowest` is used.
pub const HELP_SLOWEST: &'static str = r#"inq slowest - Show the slowest tests

Usage: inq slowest [N]

Shows the N slowest tests from the last run (default: 10).

Examples:
  inq slowest
  inq slowest 20
"#;

/// How `list-tests` is used.
pub const HELP_LIST_TESTS: &'static str = r#"inq list-tests - List available tests

Usage: inq list-tests

Lists all available tests by querying the test command with --list-tests.

Example:
  inq list-tests
"#;

/// How `quickstart` is used.
pub const HELP_QUICKSTART: &'static str = r#"inq quickstart - Show quickstart documentation

Usage: inq quickstart

Displays introductory documentation for getting started with inquest.

Example:
  inq quickstart
"#;

/// How `help` is used.
pub const HELP_HELP: &'static str = r#"inq help - Show help information

Usage: inq help [COMMAND]

Shows general help or help for a specific command.

Examples:
  inq help
  inq help run
"#;

/// How a command is used.
pub open spec fn topic(name: Seq<char>) -> Option<Seq<char>> {
    if name == "init"@ {
        Some(HELP_INIT@)
    } else if name == "load"@ {
        Some(HELP_LOAD@)
    } else if name == "run"@ {
        Some(HELP_RUN@)
    } else if name == "failing"@ {
        Some(HELP_FAILING@)
    } else if name == "last"@ {
        Some(HELP_LAST@)
    } else if name == "stats"@ {
        Some(HELP_STATS@)
    } else if name == "slowest"@ {
        Some(HELP_SLOWEST@)
    } else if name == "list-tests"@ {
        Some(HELP_LIST_TESTS@)
    } else if name == "quickstart"@ {
        Some(HELP_QUICKSTART@)
    } else if name == "help"@ {
        Some(HELP_HELP@)
    } else {
        None
    }
}

/// How a command is used.
fn find_topic(name: &str) -> (r: Option<&'static str>)
    ensures
        match topic(name@) {
            Some(t) => r matches Some(s) && s@ == t,
            None => r is None,
        },
{
    if text_eq(name, "init") {
        Some(HELP_INIT)
    } else if text_eq(name, "load") {
        Some(HELP_LOAD)
    } else if text_eq(name, "run") {
        Some(HELP_RUN)
    } else if text_eq(name, "failing") {
        Some(HELP_FAILING)
    } else if text_eq(name, "last") {
        Some(HELP_LAST)
    } else if text_eq(name, "stats") {
        Some(HELP_STATS)
    } else if text_eq(name, "slowest") {
        Some(HELP_SLOWEST)
    } else if text_eq(name, "list-tests") {
        Some(HELP_LIST_TESTS)
    } else if text_eq(name, "quickstart") {
        Some(HELP_QUICKSTART)
    } else if text_eq(name, "help") {
        Some(HELP_HELP)
    } else {
        None
    }
}

impl HelpCommand {
    /// A command that shows how a command is used.
    pub fn new(command_name: Option<String>) -> (r: Self)
        ensures
            r == (HelpCommand { command_name }),
    {
        HelpCommand { command_name }
    }

    /// Shows how the command is used, or which commands there are.
    pub fn execute(&self, ui: &mut Transcript) -> (r: Result<i32>)
        ensures
            r matches Ok(code) && match self.command_name {
                None => code == 0 && final(ui)@ == old(ui)@.push(Line::Output(HELP_GENERAL@)),
                Some(name) => match topic(name@) {
                    Some(t) => code == 0 && final(ui)@ == old(ui)@.push(Line::Output(t)),
                    None => code == 1 && final(ui)@ == old(ui)@.push(
                        Line::Error("Unknown command: "@ + name@),
                    ).push(Line::Output("Run 'inq help' to see available commands."@)),
                },
            },
    {
        match &self.command_name {
            None => {
                ui.output(HELP_GENERAL);
                Ok(0)
            },
            Some(name) => match find_topic(name.as_str()) {
                Some(t) => {
                    ui.output(t);
                    Ok(0)
                },
                None => {
                    ui.error(cat2("Unknown command: ", name.as_str()).as_str());
                    ui.output("Run 'inq help' to see available commands.");
                    Ok(1)
                },
            },
        }
    }
}

impl Command for HelpCommand {
    fn name(&self) -> (r: &str)
        ensures
            r@ == "help"@,
    {
        "help"
    }

    fn help(&self) -> (r: &str)
        ensures
            r@ == "Show help information for commands"@,
    {
        "Show help information for commands"
    }
}

} // verus!
