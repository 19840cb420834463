//! Telling whether a repository can be used.

use vstd::prelude::*;
use vstd::string::*;

use crate::commands::Command;
use crate::config::file::{join_path, path_in};
use crate::error::{failure_text, Error, Failure, Result};
use crate::text::compose::{cat2, cat4};
use crate::ui::{Line, Transcript};

verus! {

/// Command that tells whether a repository can be used.
#[derive(Debug)]
pub struct RepoCheckCommand {
    /// Where the project is.
    pub base_path: Option<String>,
}

impl RepoCheckCommand {
    /// A command for a project.
    pub fn new(base_path: Option<String>) -> (r: Self)
        ensures
            r == (RepoCheckCommand { base_path }),
    {
        RepoCheckCommand { base_path }
    }

    /// Tells what came of opening the repository. That there is none is nothing wrong.
    pub fn execute(&self, opened: Result<()>, ui: &mut Transcript) -> (r: Result<i32>)
        ensures
            ({
                let base = match self.base_path {
                    Some(p) => p@,
                    None => "."@,
                };
                r matches Ok(code) && match opened {
                    Ok(_) => code == 0 && final(ui)@ == old(ui)@.push(
                        Line::Output("Repository OK"@),
                    ),
                    Err(e) => match e@ {
                        Failure::RepositoryNotFound(path) => code == 0 && final(ui)@
                            == old(ui)@.push(Line::Output("No repository at "@ + path)),
                        _ => code == 1 && final(ui)@ == old(ui)@.push(
                            Line::Error(
                                "Repository at "@ + path_in(base, ".inquest"@)
                                    + " is not usable: "@ + failure_text(e@),
                            ),
                        ),
                    },
                }
            }),
    {
        match opened {
            Ok(_) => {
                ui.output("Repository OK");
                Ok(0)
            },
            Err(Error::RepositoryNotFound(path)) => {
                ui.output(cat2("No repository at ", path.as_str()).as_str());
                Ok(0)
            },
            Err(e) => {
                let base: &str = match &self.base_path {
                    Some(p) => p.as_str(),
                    None => ".",
                };
                let line: String = cat4(
                    "Repository at ",
                    join_path(base, ".inquest").as_str(),
                    " is not usable: ",
                    e.message().as_str(),
                );
                ui.error(line.as_str());
                Ok(1)
            },
        }
    }
}

impl Command for RepoCheckCommand {
    fn name(&self) -> (r: &str)
        ensures
            r@ == "repo-check"@,
    {
        "repo-check"
    }

    fn help(&self) -> (r: &str)
        ensures
            r@ == "Check that the test repository is present and openable"@,
    {
        "Check that the test repository is present and openable"
    }
}

} // verus!
