//! Showing how to begin.

use vstd::prelude::*;
use vstd::string::*;

use crate::commands::Command;
use crate::error::Result;
use crate::ui::{Line, Transcript};

verus! {

/// Command that shows how to begin.
#[derive(Debug)]
pub struct QuickstartCommand;

/// How to begin.
pub const QUICKSTART: &'static str = r#"# Inquest

## Overview

This project provides a database of test results which can be used as part of
developer workflow to ensure/check things like:

* No commits without having had a test failure, test fixed cycle.
* No commits without new tests being added.
* What tests have failed since the last commit (to run just a subset).
* What tests are currently failing and need work.

Test results are inserted using subunit (and thus anything that can output
subunit or be converted into a subunit stream can be accepted).

## Licensing

Inquest is under BSD / Apache 2.0 licences.

## Quick Start

Create a config file:

```sh
$ touch .testr.conf
```

Create a repository:

```sh
$ inq init
```

Load a test run into the repository:

```sh
$ inq load < testrun
```

Query the repository:

```sh
$ inq stats
$ inq last
$ inq failing
```

Delete a repository:

```sh
$ rm -rf .testrepository
```

## Documentation

More detailed documentation can be found in the original Python version at
https://testing-cabal.github.io/testrepository/
"#;

impl Default for QuickstartCommand {
    fn default() -> (r: QuickstartCommand)
        ensures
            r == QuickstartCommand,
    {
        QuickstartCommand
    }
}

impl QuickstartCommand {
    /// A command that shows how to begin.
    pub fn new() -> (r: Self)
        ensures
            r == QuickstartCommand,
    {
        QuickstartCommand
    }

    /// Shows how to begin.
    pub fn execute(&self, ui: &mut Transcript) -> (r: Result<i32>)
        ensures
            r matches Ok(code) && code == 0,
            final(ui)@ == old(ui)@.push(Line::Output(QUICKSTART@)),
    {
        ui.output(QUICKSTART);
        Ok(0)
    }
}

impl Command for QuickstartCommand {
    fn name(&self) -> (r: &str)
        ensures
            r@ == "quickstart"@,
    {
        "quickstart"
    }

    fn help(&self) -> (r: &str)
        ensures
            r@ == "Show quickstart documentation for inquest"@,
    {
        "Show quickstart documentation for inquest"
    }
}

} // verus!
