//! Creating a repository.

use vstd::prelude::*;
use vstd::string::*;

use crate::commands::Command;
use crate::error::{failure_text, Error, Result};
use crate::text::compose::cat2;
use crate::ui::{Line, Transcript};

verus! {

/// Command that creates a repository.
#[derive(Debug)]
pub struct InitCommand {
    /// Where the project is.
    pub base_path: Option<String>,
}

/// What is said where there is a repository in the old format.
pub const LEGACY_FOUND: &'static str =
    "A legacy .testrepository/ directory exists. Run 'inq upgrade' to convert it to the new .inquest/ format.";

impl InitCommand {
    /// A command that creates a repository.
    pub fn new(base_path: Option<String>) -> (r: Self)
        ensures
            r == (InitCommand { base_path }),
    {
        InitCommand { base_path }
    }

    /// Whether to create the repository; not where there is one in the old format. The exit code
    /// is then one.
    pub fn begin(&self, legacy: bool, ui: &mut Transcript) -> (r: bool)
        ensures
            r == !legacy,
            final(ui)@ == (if legacy {
                old(ui)@.push(Line::Error(LEGACY_FOUND@))
            } else {
                old(ui)@
            }),
    {
        if legacy {
            ui.error(LEGACY_FOUND);
        }
        !legacy
    }

    /// Tells what came of creating the repository.
    pub fn finish(&self, created: Result<()>, ui: &mut Transcript) -> (r: Result<i32>)
        ensures
            r matches Ok(code) && match created {
                Ok(_) => code == 0 && final(ui)@ == old(ui)@.push(
                    Line::Output("Initialized empty test repository"@),
                ),
                Err(e) => code == 1 && final(ui)@ == old(ui)@.push(
                    Line::Error("Failed to initialize repository: "@ + failure_text(e@)),
                ),
            },
    {
        match created {
            Ok(_) => {
                ui.output("Initialized empty test repository");
                Ok(0)
            },
            Err(e) => {
                ui.error(cat2("Failed to initialize repository: ", e.message().as_str()).as_str());
                Ok(1)
            },
        }
    }
}

impl Command for InitCommand {
    fn name(&self) -> (r: &str)
        ensures
            r@ == "init"@,
    {
        "init"
    }

    fn help(&self) -> (r: &str)
        ensures
            r@ == "Initialize a new test repository"@,
    {
        "Initialize a new test repository"
    }
}

} // verus!
