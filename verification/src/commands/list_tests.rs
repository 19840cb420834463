//! Listing tests.

use vstd::prelude::*;
use vstd::string::*;

use crate::commands::Command;
use crate::error::{failure_text, Error, Result};
use crate::gather::gathered;
use crate::grouping::{common_group_prefix, common_prefix};
use crate::repository::{test_names, TestId};
use crate::text::compose::{cat2, texts};
use crate::text::scan::{has_prefix, strip_prefix};
use crate::ui::{outputs, Line, Transcript};

verus! {

broadcast use crate::text::compose::texts_push;

/// Command that lists tests.
#[derive(Debug)]
pub struct ListTestsCommand {
    /// Where the project is.
    pub base_path: Option<String>,
}

/// A name without a start that it has.
pub open spec fn without_start(name: Seq<char>, start: Seq<char>) -> Seq<char> {
    if has_prefix(name, start) {
        name.skip(start.len() as int)
    } else {
        name
    }
}

/// A name without a start.
pub open spec fn short_part(names: Seq<Seq<char>>, start: Seq<char>) -> spec_fn(int) -> Seq<
    Seq<char>,
> {
    |i: int| seq![without_start(names[i], start)]
}

/// The lines of a list of tests: the start that all have in common is told once.
pub open spec fn list_lines(names: Seq<Seq<char>>, pattern: Option<Seq<char>>) -> Seq<Seq<char>> {
    match common_prefix(names, pattern) {
        Some(p) => seq!["# common prefix: "@ + p] + gathered(short_part(names, p), names.len()),
        None => names,
    }
}

/// Every test is listed, in order: where a common start is told, the names follow it without it, so
/// that the start and a line together are the name.
pub proof fn every_test_is_listed(names: Seq<Seq<char>>, pattern: Option<Seq<char>>, i: int)
    requires
        0 <= i < names.len(),
    ensures
        ({
            let lines = list_lines(names, pattern);
            match common_prefix(names, pattern) {
                Some(p) => lines.len() == names.len() + 1 && lines[0] == "# common prefix: "@ + p && p
                    + lines[i + 1] == names[i],
                None => lines == names,
            }
        }),
{
    if let Some(p) = common_prefix(names, pattern) {
        assert(has_prefix(names[i], p));
        one_line_each(names, p, names.len());
        assert(p + names[i].skip(p.len() as int) =~= names[i]);
    }
}

proof fn one_line_each(names: Seq<Seq<char>>, p: Seq<char>, n: nat)
    ensures
        gathered(short_part(names, p), n).len() == n,
        forall|i: int|
            0 <= i < n ==> #[trigger] gathered(short_part(names, p), n)[i] == without_start(
                names[i],
                p,
            ),
    decreases n,
{
    if n > 0 {
        one_line_each(names, p, (n - 1) as nat);
    }
}

/// A pattern as plain values.
pub open spec fn pattern_view(p: Option<&str>) -> Option<Seq<char>> {
    match p {
        Some(s) => Some(s@),
        None => None,
    }
}

/// The lines of a list of tests.
pub fn format_test_list(tests: &Vec<TestId>, group_regex: Option<&str>) -> (r: Vec<String>)
    ensures
        texts(r@) == list_lines(test_names(tests@), pattern_view(group_regex)),
{
    let ghost all = test_names(tests@);
    let mut names: Vec<String> = Vec::new();
    for i in 0..tests.len()
        invariant
            all == test_names(tests@),
            texts(names@) =~= all.take(i as int),
    {
        names.push(tests[i].as_str().to_owned());
    }
    assert(texts(names@) =~= all);
    let prefix: String = match common_group_prefix(&names, group_regex) {
        None => {
            return names;
        },
        Some(p) => p,
    };
    let mut r: Vec<String> = Vec::new();
    r.push(cat2("# common prefix: ", prefix.as_str()));
    let ghost head = texts(r@);
    for i in 0..names.len()
        invariant
            all == texts(names@),
            texts(r@) =~= head + gathered(short_part(all, prefix@), i as nat),
    {
        match strip_prefix(names[i].as_str(), prefix.as_str()) {
            Some(s) => r.push(s),
            None => r.push(names[i].clone()),
        }
    }
    assert(names@.len() == all.len());
    r
}

/// What is said of listed tests.
pub open spec fn listing(names: Seq<Seq<char>>, pattern: Option<Seq<char>>) -> Seq<Seq<char>> {
    if names.len() == 0 {
        seq!["No tests found"@]
    } else {
        list_lines(names, pattern)
    }
}

impl ListTestsCommand {
    /// A command for a project.
    pub fn new(base_path: Option<String>) -> (r: Self)
        ensures
            r == (ListTestsCommand { base_path }),
    {
        ListTestsCommand { base_path }
    }

    /// Shows the tests that the test command listed.
    pub fn execute(
        &self,
        listed: Result<Vec<TestId>>,
        group_regex: Option<&str>,
        ui: &mut Transcript,
    ) -> (r: Result<i32>)
        ensures
            r matches Ok(code) && match listed {
                Ok(v) => code == 0 && final(ui)@ == old(ui)@ + outputs(
                    listing(test_names(v@), pattern_view(group_regex)),
                ),
                Err(e) => code == 1 && final(ui)@ == old(ui)@.push(
                    Line::Error("Failed to list tests: "@ + failure_text(e@)),
                ),
            },
    {
        match listed {
            Ok(v) => {
                assert(test_names(v@).len() == v@.len());
                if v.len() == 0 {
                    ui.output("No tests found");
                    assert(ui@ =~= old(ui)@ + outputs(seq!["No tests found"@]));
                } else {
                    let lines: Vec<String> = format_test_list(&v, group_regex);
                    ui.output_all(&lines);
                }
                Ok(0)
            },
            Err(e) => {
                ui.error(cat2("Failed to list tests: ", e.message().as_str()).as_str());
                Ok(1)
            },
        }
    }
}

impl Command for ListTestsCommand {
    fn name(&self) -> (r: &str)
        ensures
            r@ == "list-tests"@,
    {
        "list-tests"
    }

    fn help(&self) -> (r: &str)
        ensures
            r@ == "List all available tests"@,
    {
        "List all available tests"
    }
}

} // verus!
