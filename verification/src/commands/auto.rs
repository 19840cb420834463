//! Writing a configuration for a project.

use vstd::prelude::*;
use vstd::string::*;

use crate::collection::{entry_of, has_key, Named, TextMap};
use crate::commands::Command;
use crate::config::file::{config_file_label, config_file_name, join_path, path_in};
use crate::error::{Error, Failure, Result};
use crate::package::{mentions, package_json_mentions};
use crate::text::compose::{cat2, cat4, join_terminated, terminated, texts};
use crate::text::scan::{contains, ends_with, has_suffix, occurs_at, occurs_in};
use crate::ui::{outputs, Line, Transcript};

verus! {

broadcast use crate::text::compose::texts_push;

/// A kind of project.
#[derive(Clone, Copy, Debug, PartialEq, Eq, Structural)]
pub enum Project {
    /// Rust with Cargo.
    Cargo,
    /// Python with pytest.
    Pytest,
    /// Python with unittest.
    Unittest,
    /// Go.
    Go,
    /// Perl.
    Perl,
    /// Node.js with Vitest.
    Vitest,
    /// Node.js with Jest.
    Jest,
}

/// How the tests of a project are run.
#[derive(Debug)]
pub struct Detection {
    /// What the project is called.
    pub name: &'static str,
    /// The command that runs the tests.
    pub test_command: &'static str,
    /// What selects tests.
    pub test_id_option: Option<&'static str>,
    /// What lists tests.
    pub test_list_option: Option<&'static str>,
}

/// How the tests of a project are run, as plain values.
pub struct Setup {
    /// See [`Detection::name`].
    pub name: Seq<char>,
    /// See [`Detection::test_command`].
    pub test_command: Seq<char>,
    /// See [`Detection::test_id_option`].
    pub test_id_option: Option<Seq<char>>,
    /// See [`Detection::test_list_option`].
    pub test_list_option: Option<Seq<char>>,
}

impl View for Detection {
    type V = Setup;

    open spec fn view(&self) -> Setup {
        Setup {
            name: self.name@,
            test_command: self.test_command@,
            test_id_option: match self.test_id_option {
                Some(s) => Some(s@),
                None => None,
            },
            test_list_option: match self.test_list_option {
                Some(s) => Some(s@),
                None => None,
            },
        }
    }
}

/// How the tests of a project are run.
pub open spec fn setup_of(p: Project) -> Setup {
    match p {
        Project::Cargo => Setup {
            name: "Cargo (Rust)"@,
            test_command: "cargo subunit $LISTOPT $IDOPTION"@,
            test_id_option: Some("--load-list $IDFILE"@),
            test_list_option: Some("--list"@),
        },
        Project::Pytest => Setup {
            name: "pytest (Python)"@,
            test_command: "pytest --subunit $IDOPTION"@,
            test_id_option: Some("--load-list $IDFILE"@),
            test_list_option: None,
        },
        Project::Unittest => Setup {
            name: "unittest/subunit (Python)"@,
            test_command: "python3 -m subunit.run discover $IDOPTION $LISTOPT"@,
            test_id_option: Some("--load-list $IDFILE"@),
            test_list_option: Some("--list"@),
        },
        Project::Go => Setup {
            name: "go test (Go)"@,
            test_command: "gotest-run $LISTOPT $IDOPTION"@,
            test_id_option: Some("--id-file $IDFILE"@),
            test_list_option: Some("--list"@),
        },
        Project::Perl => Setup {
            name: "prove (Perl)"@,
            test_command: "prove-subunit"@,
            test_id_option: None,
            test_list_option: None,
        },
        Project::Vitest => Setup {
            name: "vitest (Node.js)"@,
            test_command: "vitest run --reporter=tap | tap2subunit"@,
            test_id_option: None,
            test_list_option: None,
        },
        Project::Jest => Setup {
            name: "jest (Node.js)"@,
            test_command: "jest --ci --reporters=jest-junit; junitxml2subunit junit.xml"@,
            test_id_option: None,
            test_list_option: None,
        },
    }
}

/// The files of a project.
#[derive(Debug)]
pub struct ProjectFiles {
    /// What is in the directory of the project, with the texts of files that can be read.
    pub files: TextMap<Option<String>>,
    /// The names of what is in the directory `t`.
    pub perl_tests: Vec<String>,
}

/// Whether a file holds a text.
pub open spec fn holds(files: Seq<Named<Option<String>>>, name: Seq<char>, needle: Seq<char>) -> bool {
    has_key(files, name) && entry_of(files, name).value is Some && occurs_in(
        entry_of(files, name).value->0@,
        needle,
    )
}

/// Whether the package of a project names something.
pub open spec fn package_has(files: Seq<Named<Option<String>>>, name: Seq<char>) -> bool {
    has_key(files, "package.json"@) && entry_of(files, "package.json"@).value is Some && mentions(
        entry_of(files, "package.json"@).value->0@,
        name,
    )
}

/// Whether a name is that of a Perl test.
pub open spec fn is_perl_test(name: Seq<char>) -> bool {
    name.len() > 2 && has_suffix(name, ".t"@)
}

/// Whether a project is of a kind.
pub open spec fn is_project(f: ProjectFiles, p: Project) -> bool {
    let s = f.files@;
    match p {
        Project::Cargo => has_key(s, "Cargo.toml"@),
        Project::Pytest => has_key(s, "pytest.ini"@) || has_key(s, "conftest.py"@) || holds(
            s,
            "pyproject.toml"@,
            "[tool.pytest"@,
        ) || holds(s, "setup.cfg"@, "[tool:pytest]"@),
        Project::Unittest => has_key(s, "setup.py"@) || has_key(s, "setup.cfg"@) || has_key(
            s,
            "pyproject.toml"@,
        ),
        Project::Go => has_key(s, "go.mod"@),
        Project::Perl => has_key(s, "cpanfile"@) || has_key(s, "Makefile.PL"@) || has_key(
            s,
            "Build.PL"@,
        ) || has_key(s, "dist.ini"@) || exists|i: int|
            0 <= i < f.perl_tests@.len() && is_perl_test((#[trigger] f.perl_tests@[i])@),
        Project::Vitest => has_key(s, "vitest.config.js"@) || has_key(s, "vitest.config.ts"@)
            || has_key(s, "vitest.config.mjs"@) || has_key(s, "vitest.config.cjs"@) || has_key(
            s,
            "vitest.config.mts"@,
        ) || has_key(s, "vitest.config.cts"@) || package_has(s, "vitest"@),
        Project::Jest => has_key(s, "jest.config.js"@) || has_key(s, "jest.config.ts"@) || has_key(
            s,
            "jest.config.mjs"@,
        ) || has_key(s, "jest.config.cjs"@) || has_key(s, "jest.config.json"@) || package_has(
            s,
            "jest"@,
        ),
    }
}

/// The kind of project at a position, the one to be preferred first.
pub open spec fn project_at(i: int) -> Project {
    if i == 0 {
        Project::Cargo
    } else if i == 1 {
        Project::Pytest
    } else if i == 2 {
        Project::Unittest
    } else if i == 3 {
        Project::Go
    } else if i == 4 {
        Project::Perl
    } else if i == 5 {
        Project::Vitest
    } else {
        Project::Jest
    }
}

/// The kinds that a project is of, among the first `n`.
pub open spec fn detected(f: ProjectFiles, n: nat) -> Seq<Setup>
    decreases n,
{
    if n == 0 {
        Seq::empty()
    } else {
        let before = detected(f, (n - 1) as nat);
        if is_project(f, project_at(n - 1)) {
            before.push(setup_of(project_at(n - 1)))
        } else {
            before
        }
    }
}

/// Setups as plain values.
pub open spec fn setups(v: Seq<Detection>) -> Seq<Setup> {
    Seq::new(v.len(), |i: int| v[i]@)
}

/// The kind of project at a position.
fn nth_project(i: usize) -> (p: Project)
    ensures
        p == project_at(i as int),
{
    match i {
        0 => Project::Cargo,
        1 => Project::Pytest,
        2 => Project::Unittest,
        3 => Project::Go,
        4 => Project::Perl,
        5 => Project::Vitest,
        _ => Project::Jest,
    }
}

/// How the tests of a project are run.
fn describe(p: Project) -> (d: Detection)
    ensures
        d@ == setup_of(p),
{
    match p {
        Project::Cargo => Detection {
            name: "Cargo (Rust)",
            test_command: "cargo subunit $LISTOPT $IDOPTION",
            test_id_option: Some("--load-list $IDFILE"),
            test_list_option: Some("--list"),
        },
        Project::Pytest => Detection {
            name: "pytest (Python)",
            test_command: "pytest --subunit $IDOPTION",
            test_id_option: Some("--load-list $IDFILE"),
            test_list_option: None,
        },
        Project::Unittest => Detection {
            name: "unittest/subunit (Python)",
            test_command: "python3 -m subunit.run discover $IDOPTION $LISTOPT",
            test_id_option: Some("--load-list $IDFILE"),
            test_list_option: Some("--list"),
        },
        Project::Go => Detection {
            name: "go test (Go)",
            test_command: "gotest-run $LISTOPT $IDOPTION",
            test_id_option: Some("--id-file $IDFILE"),
            test_list_option: Some("--list"),
        },
        Project::Perl => Detection {
            name: "prove (Perl)",
            test_command: "prove-subunit",
            test_id_option: None,
            test_list_option: None,
        },
        Project::Vitest => Detection {
            name: "vitest (Node.js)",
            test_command: "vitest run --reporter=tap | tap2subunit",
            test_id_option: None,
            test_list_option: None,
        },
        Project::Jest => Detection {
            name: "jest (Node.js)",
            test_command: "jest --ci --reporters=jest-junit; junitxml2subunit junit.xml",
            test_id_option: None,
            test_list_option: None,
        },
    }
}

impl ProjectFiles {
    /// Whether a file holds a text.
    fn file_holds(&self, name: &str, needle: &str) -> (r: bool)
        ensures
            r == holds(self.files@, name@, needle@),
    {
        match self.files.get(name) {
            Some(Some(text)) => contains(text.as_str(), needle),
            _ => false,
        }
    }

    /// Whether the package of the project names something.
    fn package_names(&self, name: &str) -> (r: bool)
        ensures
            r == package_has(self.files@, name@),
    {
        match self.files.get("package.json") {
            Some(Some(text)) => package_json_mentions(text.as_str(), name),
            _ => false,
        }
    }

    /// Whether the directory `t` has a Perl test.
    fn has_perl_test(&self) -> (r: bool)
        ensures
            r == exists|i: int|
                0 <= i < self.perl_tests@.len() && is_perl_test((#[trigger] self.perl_tests@[i])@),
    {
        for i in 0..self.perl_tests.len()
            invariant
                forall|k: int| 0 <= k < i ==> !is_perl_test((#[trigger] self.perl_tests@[k])@),
        {
            let name: &str = self.perl_tests[i].as_str();
            if name.unicode_len() > 2 && ends_with(name, ".t") {
                assert(is_perl_test(self.perl_tests@[i as int]@));
                return true;
            }
        }
        false
    }

    /// Whether the project is of a kind.
    pub fn is_project(&self, p: Project) -> (r: bool)
        ensures
            r == is_project(*self, p),
    {
        let f: &TextMap<Option<String>> = &self.files;
        match p {
            Project::Cargo => f.contains_key("Cargo.toml"),
            Project::Pytest => f.contains_key("pytest.ini") || f.contains_key("conftest.py")
                || self.file_holds("pyproject.toml", "[tool.pytest") || self.file_holds(
                "setup.cfg",
                "[tool:pytest]",
            ),
            Project::Unittest => f.contains_key("setup.py") || f.contains_key("setup.cfg")
                || f.contains_key("pyproject.toml"),
            Project::Go => f.contains_key("go.mod"),
            Project::Perl => f.contains_key("cpanfile") || f.contains_key("Makefile.PL")
                || f.contains_key("Build.PL") || f.contains_key("dist.ini")
                || self.has_perl_test(),
            Project::Vitest => f.contains_key("vitest.config.js") || f.contains_key(
                "vitest.config.ts",
            ) || f.contains_key("vitest.config.mjs") || f.contains_key("vitest.config.cjs")
                || f.contains_key("vitest.config.mts") || f.contains_key("vitest.config.cts")
                || self.package_names("vitest"),
            Project::Jest => f.contains_key("jest.config.js") || f.contains_key("jest.config.ts")
                || f.contains_key("jest.config.mjs") || f.contains_key("jest.config.cjs")
                || f.contains_key("jest.config.json") || self.package_names("jest"),
        }
    }
}

/// The kinds that a project is of, the one to be preferred first.
pub fn detect_project(f: &ProjectFiles) -> (r: Vec<Detection>)
    ensures
        setups(r@) == detected(*f, 7),
{
    let mut r: Vec<Detection> = Vec::new();
    assert(setups(r@) =~= detected(*f, 0));
    for i in 0..7usize
        invariant
            setups(r@) == detected(*f, i as nat),
    {
        let ghost before = r@;
        let p: Project = nth_project(i);
        if f.is_project(p) {
            r.push(describe(p));
            assert(setups(r@) =~= setups(before).push(setup_of(p)));
        }
    }
    r
}

/// Whether a character stands for itself in quotes.
pub open spec fn is_plain_char(c: char) -> bool {
    ' ' <= c && c <= '~' && c != '"' && c != '\\' && c != '\''
}

/// A text in quotes, as `{:?}` of std writes it.
pub uninterp spec fn debug_text(s: Seq<char>) -> Seq<char>;

/// `{:?}` of std writes a string in double quotes and escapes some characters. Of a text of
/// printable ASCII characters without quotes and backslashes, none is escaped.
#[verifier::external_body]
pub(crate) fn quote(s: &str) -> (r: String)
    ensures
        r@ == debug_text(s@),
        (forall|i: int| 0 <= i < s@.len() ==> is_plain_char(#[trigger] s@[i])) ==> r@ == "\""@ + s@
            + "\""@,
{
    format!("{:?}", s)
}

/// The lines of a configuration.
pub open spec fn setup_lines(s: Setup) -> Seq<Seq<char>> {
    seq!["test_command = "@ + debug_text(s.test_command)] + (match s.test_id_option {
        Some(o) => seq!["test_id_option = "@ + debug_text(o)],
        None => Seq::empty(),
    }) + (match s.test_list_option {
        Some(o) => seq!["test_list_option = "@ + debug_text(o)],
        None => Seq::empty(),
    })
}

/// The text of a configuration.
pub fn format_toml(d: &Detection) -> (s: String)
    ensures
        s@ == terminated(setup_lines(d@), "\n"@),
{
    let mut v: Vec<String> = Vec::new();
    v.push(cat2("test_command = ", quote(d.test_command).as_str()));
    if let Some(o) = d.test_id_option {
        v.push(cat2("test_id_option = ", quote(o).as_str()));
    }
    if let Some(o) = d.test_list_option {
        v.push(cat2("test_list_option = ", quote(o).as_str()));
    }
    assert(texts(v@) =~= setup_lines(d@));
    join_terminated(&v, "\n")
}

/// Command that writes a configuration for a project.
#[derive(Debug)]
pub struct AutoCommand {
    /// Where the project is.
    pub base_path: Option<String>,
}

/// A configuration to be written.
#[derive(Debug)]
pub struct AutoFile {
    /// Where to write it.
    pub path: String,
    /// Its text.
    pub text: String,
    /// What the project is called.
    pub project: String,
}

/// Where the project is.
pub open spec fn auto_base(c: AutoCommand) -> Seq<char> {
    match c.base_path {
        Some(p) => p@,
        None => "."@,
    }
}

/// The first configuration file that there is.
pub open spec fn present_config(files: Seq<Named<Option<String>>>, from: int) -> Option<int>
    decreases 3 - from,
{
    if from >= 3 {
        None
    } else if has_key(files, config_file_name(from)) {
        Some(from)
    } else {
        present_config(files, from + 1)
    }
}

impl AutoCommand {
    /// A command for a project.
    pub fn new(base_path: Option<String>) -> (r: Self)
        ensures
            r == (AutoCommand { base_path }),
    {
        AutoCommand { base_path }
    }

    /// Decides what to write. Gives nothing, and says why, where there is a configuration already
    /// or the project is of no known kind; the exit code is then one.
    pub fn begin(&self, f: &ProjectFiles, ui: &mut Transcript) -> (r: Option<AutoFile>)
        ensures
            match present_config(f.files@, 0) {
                Some(i) => r is None && final(ui)@ == old(ui)@.push(
                    Line::Error(
                        "Configuration file already exists: "@ + path_in(
                            auto_base(*self),
                            config_file_name(i),
                        ),
                    ),
                ),
                None => if detected(*f, 7).len() == 0 {
                    r is None && final(ui)@ == old(ui)@ + seq![
                        Line::Error("Could not detect project type"@),
                        Line::Error(
                            "Supported project types: Cargo (Rust), pytest (Python), unittest/subunit (Python), go test (Go), prove (Perl), vitest (Node.js), jest (Node.js)"@,
                        ),
                    ]
                } else {
                    let s = detected(*f, 7)[0];
                    &&& r matches Some(a)
                    &&& a.path@ == path_in(auto_base(*self), "inquest.toml"@)
                    &&& a.text@ == terminated(setup_lines(s), "\n"@)
                    &&& a.project@ == s.name
                    &&& final(ui)@ == old(ui)@
                },
            },
    {
        let base: &str = match &self.base_path {
            Some(p) => p.as_str(),
            None => ".",
        };
        for i in 0..3usize
            invariant
                base@ == auto_base(*self),
                ui@ == old(ui)@,
                present_config(f.files@, 0) == present_config(f.files@, i as int),
        {
            let name: &str = config_file_label(i);
            if f.files.contains_key(name) {
                let line: String = cat2(
                    "Configuration file already exists: ",
                    join_path(base, name).as_str(),
                );
                ui.error(line.as_str());
                return None;
            }
        }
        let found: Vec<Detection> = detect_project(f);
        assert(setups(found@).len() == found@.len());
        if found.len() == 0 {
            ui.error("Could not detect project type");
            ui.error(
                "Supported project types: Cargo (Rust), pytest (Python), unittest/subunit (Python), go test (Go), prove (Perl), vitest (Node.js), jest (Node.js)",
            );
            assert(ui@ =~= old(ui)@ + seq![
                Line::Error("Could not detect project type"@),
                Line::Error(
                    "Supported project types: Cargo (Rust), pytest (Python), unittest/subunit (Python), go test (Go), prove (Perl), vitest (Node.js), jest (Node.js)"@,
                ),
            ]);
            return None;
        }
        assert(setups(found@)[0] == found@[0]@);
        Some(
            AutoFile {
                path: join_path(base, "inquest.toml"),
                text: format_toml(&found[0]),
                project: found[0].name.to_owned(),
            },
        )
    }

    /// Tells what came of writing a configuration.
    pub fn finish(
        &self,
        file: &AutoFile,
        written: core::result::Result<(), String>,
        ui: &mut Transcript,
    ) -> (r: Result<i32>)
        ensures
            match written {
                Ok(_) => r == Ok::<i32, Error>(0) && final(ui)@ == old(ui)@ + outputs(
                    seq!["Detected "@ + file.project@ + " project, wrote "@ + file.path@],
                ),
                Err(m) => r matches Err(e) && e@ == Failure::Config(
                    "Failed to write "@ + file.path@ + ": "@ + m@,
                ) && final(ui)@ == old(ui)@,
            },
    {
        match written {
            Ok(_) => {
                let line: String = cat4(
                    "Detected ",
                    file.project.as_str(),
                    " project, wrote ",
                    file.path.as_str(),
                );
                ui.output(line.as_str());
                assert(ui@ =~= old(ui)@ + outputs(seq![line@]));
                Ok(0)
            },
            Err(m) => Err(
                Error::Config(
                    cat4("Failed to write ", file.path.as_str(), ": ", m.as_str()),
                ),
            ),
        }
    }
}

/// Whether none of the first `n` characters is `a` with `b` behind it.
spec fn lacks_pair(s: Seq<char>, a: char, b: char, n: nat) -> bool
    decreases n,
{
    n == 0 || (!(s[n - 1] == a && n < s.len() && s[n as int] == b) && lacks_pair(
        s,
        a,
        b,
        (n - 1) as nat,
    ))
}

/// A text without two characters behind each other does not hold a text that starts with them.
proof fn pair_is_needed(s: Seq<char>, p: Seq<char>, n: nat)
    requires
        p.len() >= 2,
        n == s.len(),
        lacks_pair(s, p[0], p[1], n),
    ensures
        !occurs_in(s, p),
{
    if occurs_in(s, p) {
        let i = choose|i: int| #[trigger] crate::text::scan::occurs_at(s, p, i);
        assert(s.subrange(i, i + p.len())[0] == s[i]);
        assert(s.subrange(i, i + p.len())[1] == s[i + 1]);
        pair_is_lacking(s, p[0], p[1], n, i);
    }
}

proof fn pair_is_lacking(s: Seq<char>, a: char, b: char, n: nat, i: int)
    requires
        lacks_pair(s, a, b, n),
        0 <= i < n,
        i + 1 < s.len(),
    ensures
        !(s[i] == a && s[i + 1] == b),
    decreases n,
{
    if i < n - 1 {
        pair_is_lacking(s, a, b, (n - 1) as nat, i);
    }
}

/// The configuration that is written for a project can be used: its command has room for tests that
/// are selected exactly if there is an option that selects tests, and for the option that lists
/// tests exactly if there is one.
pub proof fn every_setup_can_be_used(p: Project)
    ensures
        setup_of(p).test_command.len() > 0,
        occurs_in(setup_of(p).test_command, "$IDOPTION"@) <==> setup_of(p).test_id_option is Some,
        occurs_in(setup_of(p).test_command, "$LISTOPT"@) <==> setup_of(p).test_list_option is Some,
{
    let cmd = setup_of(p).test_command;
    let id = "$IDOPTION"@;
    let list = "$LISTOPT"@;
    reveal_strlit("$IDOPTION");
    reveal_strlit("$LISTOPT");
    match p {
        Project::Cargo => {
            reveal_strlit("cargo subunit $LISTOPT $IDOPTION");
            assert(cmd.subrange(14, 22) =~= list);
            assert(cmd.subrange(23, 32) =~= id);
            assert(occurs_at(cmd, list, 14) && occurs_at(cmd, id, 23));
        },
        Project::Pytest => {
            reveal_strlit("pytest --subunit $IDOPTION");
            assert(cmd.subrange(17, 26) =~= id);
            assert(occurs_at(cmd, id, 17));
            reveal_with_fuel(lacks_pair, 28);
            assert(lacks_pair(cmd, '$', 'L', 26));
            pair_is_needed(cmd, list, 26);
        },
        Project::Unittest => {
            reveal_strlit("python3 -m subunit.run discover $IDOPTION $LISTOPT");
            assert(cmd.subrange(32, 41) =~= id);
            assert(cmd.subrange(42, 50) =~= list);
            assert(occurs_at(cmd, list, 42) && occurs_at(cmd, id, 32));
        },
        Project::Go => {
            reveal_strlit("gotest-run $LISTOPT $IDOPTION");
            assert(cmd.subrange(11, 19) =~= list);
            assert(cmd.subrange(20, 29) =~= id);
            assert(occurs_at(cmd, list, 11) && occurs_at(cmd, id, 20));
        },
        Project::Perl => {
            reveal_strlit("prove-subunit");
            reveal_with_fuel(lacks_pair, 15);
            assert(lacks_pair(cmd, '$', 'L', 13));
            assert(lacks_pair(cmd, '$', 'I', 13));
            pair_is_needed(cmd, list, 13);
            pair_is_needed(cmd, id, 13);
        },
        Project::Vitest => {
            reveal_strlit("vitest run --reporter=tap | tap2subunit");
            reveal_with_fuel(lacks_pair, 41);
            assert(lacks_pair(cmd, '$', 'L', 39));
            assert(lacks_pair(cmd, '$', 'I', 39));
            pair_is_needed(cmd, list, 39);
            pair_is_needed(cmd, id, 39);
        },
        Project::Jest => {
            reveal_strlit("jest --ci --reporters=jest-junit; junitxml2subunit junit.xml");
            reveal_with_fuel(lacks_pair, 62);
            assert(lacks_pair(cmd, '$', 'L', 60));
            assert(lacks_pair(cmd, '$', 'I', 60));
            pair_is_needed(cmd, list, 60);
            pair_is_needed(cmd, id, 60);
        },
    }
}

impl Command for AutoCommand {
    fn name(&self) -> (r: &str)
        ensures
            r@ == "auto"@,
    {
        "auto"
    }

    fn help(&self) -> (r: &str)
        ensures
            r@ == "Auto-detect project type and generate inquest.toml"@,
    {
        "Auto-detect project type and generate inquest.toml"
    }
}

/// The kind that is chosen is the first that the project is of: it is of none that would be
/// preferred.
pub proof fn first_kind_is_chosen(f: ProjectFiles, k: int)
    requires
        0 <= k < 7,
        is_project(f, project_at(k)),
        forall|j: int| 0 <= j < k ==> !is_project(f, #[trigger] project_at(j)),
    ensures
        detected(f, 7).len() > 0,
        detected(f, 7)[0] == setup_of(project_at(k)),
{
    none_before(f, k as nat);
    first_stays(f, k, 7);
}

/// Where no kind fits, none is detected.
proof fn none_before(f: ProjectFiles, n: nat)
    requires
        forall|j: int| 0 <= j < n ==> !is_project(f, #[trigger] project_at(j)),
    ensures
        detected(f, n).len() == 0,
    decreases n,
{
    if n > 0 {
        none_before(f, (n - 1) as nat);
        assert(!is_project(f, project_at(n - 1)));
    }
}

/// The first kind stays first.
proof fn first_stays(f: ProjectFiles, k: int, n: nat)
    requires
        0 <= k < n,
        detected(f, k as nat).len() == 0,
        is_project(f, project_at(k)),
    ensures
        detected(f, n).len() > 0,
        detected(f, n)[0] == setup_of(project_at(k)),
    decreases n,
{
    if k < n - 1 {
        first_stays(f, k, (n - 1) as nat);
    }
}

} // verus!
