use inquest::collection::TextMap;
use inquest::commands::auto::{detect_project, format_toml, AutoCommand, Detection, ProjectFiles};
use inquest::commands::Command;
use inquest::package::{package_json_mentions, package_names, JsonMember};
use inquest::ui::{Message, Transcript};

fn outputs(ui: &Transcript) -> Vec<String> {
    ui.messages
        .iter()
        .filter_map(|m| match m {
            Message::Output(s) => Some(s.clone()),
            _ => None,
        })
        .collect()
}

fn errors(ui: &Transcript) -> Vec<String> {
    ui.messages
        .iter()
        .filter_map(|m| match m {
            Message::Error(s) => Some(s.clone()),
            Message::Warning(s) => Some(format!("Warning: {}", s)),
            _ => None,
        })
        .collect()
}

fn project() -> ProjectFiles {
    ProjectFiles {
        files: TextMap::new(),
        perl_tests: Vec::new(),
    }
}

fn execute(cmd: &AutoCommand, f: &ProjectFiles, ui: &mut Transcript) -> (i32, Option<String>) {
    match cmd.begin(f, ui) {
        None => (1, None),
        Some(file) => {
            let code = cmd.finish(&file, Ok(()), ui).unwrap();
            (code, Some(file.text))
        }
    }
}

#[test]
fn test_auto_detect_cargo() {
    let mut f = project();
    f.files.insert("Cargo.toml", Some("[package]\nname = \"foo\"\n".to_string()));

    let mut ui = Transcript::new();
    let cmd = AutoCommand::new(Some("/p".to_string()));
    let (result, written) = execute(&cmd, &f, &mut ui);

    assert_eq!(result, 0);
    assert_eq!(
        outputs(&ui),
        vec![format!(
            "Detected Cargo (Rust) project, wrote {}",
            "/p/inquest.toml"
        )]
    );

    let content = written.unwrap();
    assert_eq!(
        content,
        "test_command = \"cargo subunit $LISTOPT $IDOPTION\"\n\
         test_id_option = \"--load-list $IDFILE\"\n\
         test_list_option = \"--list\"\n"
    );
}

#[test]
fn test_auto_detect_pytest() {
    let mut f = project();
    f.files.insert("pytest.ini", Some("".to_string()));

    let mut ui = Transcript::new();
    let cmd = AutoCommand::new(Some("/p".to_string()));
    let (result, written) = execute(&cmd, &f, &mut ui);

    assert_eq!(result, 0);
    assert_eq!(
        outputs(&ui),
        vec![format!(
            "Detected pytest (Python) project, wrote {}",
            "/p/inquest.toml"
        )]
    );

    let content = written.unwrap();
    assert_eq!(
        content,
        "test_command = \"pytest --subunit $IDOPTION\"\n\
         test_id_option = \"--load-list $IDFILE\"\n"
    );
}

#[test]
fn test_auto_detect_pytest_from_pyproject() {
    let mut f = project();
    f.files.insert("pyproject.toml", Some("[tool.pytest.ini_options]\naddopts = \"-v\"\n".to_string()));

    let mut ui = Transcript::new();
    let cmd = AutoCommand::new(Some("/p".to_string()));
    let (result, _) = execute(&cmd, &f, &mut ui);

    assert_eq!(result, 0);
    assert_eq!(
        outputs(&ui),
        vec![format!(
            "Detected pytest (Python) project, wrote {}",
            "/p/inquest.toml"
        )]
    );
}

#[test]
fn test_auto_detect_python_unittest() {
    let mut f = project();
    f.files.insert("setup.py", Some("".to_string()));

    let mut ui = Transcript::new();
    let cmd = AutoCommand::new(Some("/p".to_string()));
    let (result, written) = execute(&cmd, &f, &mut ui);

    assert_eq!(result, 0);
    assert_eq!(
        outputs(&ui),
        vec![format!(
            "Detected unittest/subunit (Python) project, wrote {}",
            "/p/inquest.toml"
        )]
    );

    let content = written.unwrap();
    assert_eq!(
        content,
        "test_command = \"python3 -m subunit.run discover $IDOPTION $LISTOPT\"\n\
         test_id_option = \"--load-list $IDFILE\"\n\
         test_list_option = \"--list\"\n"
    );
}

#[test]
fn test_auto_no_project_detected() {
    let f = project();

    let mut ui = Transcript::new();
    let cmd = AutoCommand::new(Some("/p".to_string()));
    let (result, _) = execute(&cmd, &f, &mut ui);

    assert_eq!(result, 1);
    assert_eq!(
        errors(&ui),
        vec![
            "Could not detect project type",
            "Supported project types: Cargo (Rust), pytest (Python), unittest/subunit (Python), go test (Go), prove (Perl), vitest (Node.js), jest (Node.js)",
        ]
    );
}

#[test]
fn test_auto_detect_go() {
    let mut f = project();
    f.files.insert("go.mod", Some("module example.com/foo\n\ngo 1.22\n".to_string()));

    let mut ui = Transcript::new();
    let cmd = AutoCommand::new(Some("/p".to_string()));
    let (result, written) = execute(&cmd, &f, &mut ui);

    assert_eq!(result, 0);
    assert_eq!(
        outputs(&ui),
        vec![format!(
            "Detected go test (Go) project, wrote {}",
            "/p/inquest.toml"
        )]
    );

    let content = written.unwrap();
    assert_eq!(
        content,
        "test_command = \"gotest-run $LISTOPT $IDOPTION\"\n\
         test_id_option = \"--id-file $IDFILE\"\n\
         test_list_option = \"--list\"\n"
    );
}

#[test]
fn test_auto_detect_perl_cpanfile() {
    let mut f = project();
    f.files.insert("cpanfile", Some("requires 'Test::More';\n".to_string()));

    let mut ui = Transcript::new();
    let cmd = AutoCommand::new(Some("/p".to_string()));
    let (result, written) = execute(&cmd, &f, &mut ui);

    assert_eq!(result, 0);
    assert_eq!(
        outputs(&ui),
        vec![format!(
            "Detected prove (Perl) project, wrote {}",
            "/p/inquest.toml"
        )]
    );

    let content = written.unwrap();
    assert_eq!(content, "test_command = \"prove-subunit\"\n");
}

#[test]
fn test_auto_detect_perl_t_directory() {
    let mut f = project();
    f.perl_tests.push("basic.t".to_string());

    let mut ui = Transcript::new();
    let cmd = AutoCommand::new(Some("/p".to_string()));
    let (result, _) = execute(&cmd, &f, &mut ui);

    assert_eq!(result, 0);
    assert_eq!(
        outputs(&ui),
        vec![format!(
            "Detected prove (Perl) project, wrote {}",
            "/p/inquest.toml"
        )]
    );
}

#[test]
fn test_auto_detect_perl_empty_t_directory() {
    let f = project();

    let mut ui = Transcript::new();
    let cmd = AutoCommand::new(Some("/p".to_string()));
    let (result, _) = execute(&cmd, &f, &mut ui);

    assert_eq!(result, 1);
}

#[test]
fn test_auto_config_already_exists() {
    let mut f = project();
    f.files.insert("Cargo.toml", Some("[package]\nname = \"foo\"\n".to_string()));
    f.files.insert("inquest.toml", Some("test_command = \"foo\"\n".to_string()));

    let mut ui = Transcript::new();
    let cmd = AutoCommand::new(Some("/p".to_string()));
    let (result, _) = execute(&cmd, &f, &mut ui);

    assert_eq!(result, 1);
    assert_eq!(
        errors(&ui),
        vec![format!(
            "Configuration file already exists: {}",
            "/p/inquest.toml"
        )]
    );
}

#[test]
fn test_auto_pytest_priority_over_unittest() {
    let mut f = project();
    // Both pytest and generic Python indicators present
    f.files.insert("conftest.py", Some("".to_string()));
    f.files.insert("setup.py", Some("".to_string()));

    let mut ui = Transcript::new();
    let cmd = AutoCommand::new(Some("/p".to_string()));
    let (result, _) = execute(&cmd, &f, &mut ui);

    assert_eq!(result, 0);
    // pytest should win over unittest
    assert_eq!(
        outputs(&ui),
        vec![format!(
            "Detected pytest (Python) project, wrote {}",
            "/p/inquest.toml"
        )]
    );
}

#[test]
fn test_auto_detect_vitest_config() {
    let mut f = project();
    f.files.insert("vitest.config.ts", Some("export default {}\n".to_string()));

    let mut ui = Transcript::new();
    let cmd = AutoCommand::new(Some("/p".to_string()));
    let (result, written) = execute(&cmd, &f, &mut ui);

    assert_eq!(result, 0);
    assert_eq!(
        outputs(&ui),
        vec![format!(
            "Detected vitest (Node.js) project, wrote {}",
            "/p/inquest.toml"
        )]
    );

    let content = written.unwrap();
    assert_eq!(
        content,
        "test_command = \"vitest run --reporter=tap | tap2subunit\"\n"
    );
}

#[test]
fn test_auto_detect_vitest_devdependency() {
    let mut f = project();
    f.files.insert("package.json", Some(r#"{"name":"foo","devDependencies":{"vitest":"^1.0.0"}}"#.to_string()));

    let mut ui = Transcript::new();
    let cmd = AutoCommand::new(Some("/p".to_string()));
    let (result, _) = execute(&cmd, &f, &mut ui);

    assert_eq!(result, 0);
    assert_eq!(
        outputs(&ui),
        vec![format!(
            "Detected vitest (Node.js) project, wrote {}",
            "/p/inquest.toml"
        )]
    );
}

#[test]
fn test_auto_detect_jest_config() {
    let mut f = project();
    f.files.insert("jest.config.js", Some("module.exports = {};\n".to_string()));

    let mut ui = Transcript::new();
    let cmd = AutoCommand::new(Some("/p".to_string()));
    let (result, written) = execute(&cmd, &f, &mut ui);

    assert_eq!(result, 0);
    assert_eq!(
        outputs(&ui),
        vec![format!(
            "Detected jest (Node.js) project, wrote {}",
            "/p/inquest.toml"
        )]
    );

    let content = written.unwrap();
    assert_eq!(
        content,
        "test_command = \"jest --ci --reporters=jest-junit; junitxml2subunit junit.xml\"\n"
    );
}

#[test]
fn test_auto_detect_jest_package_json_block() {
    let mut f = project();
    f.files.insert("package.json", Some(r#"{"name":"foo","jest":{"testEnvironment":"node"}}"#.to_string()));

    let mut ui = Transcript::new();
    let cmd = AutoCommand::new(Some("/p".to_string()));
    let (result, _) = execute(&cmd, &f, &mut ui);

    assert_eq!(result, 0);
    assert_eq!(
        outputs(&ui),
        vec![format!(
            "Detected jest (Node.js) project, wrote {}",
            "/p/inquest.toml"
        )]
    );
}

#[test]
fn test_auto_detect_jest_devdependency() {
    let mut f = project();
    f.files.insert("package.json", Some(r#"{"name":"foo","devDependencies":{"jest":"^29.0.0"}}"#.to_string()));

    let mut ui = Transcript::new();
    let cmd = AutoCommand::new(Some("/p".to_string()));
    let (result, _) = execute(&cmd, &f, &mut ui);

    assert_eq!(result, 0);
    assert_eq!(
        outputs(&ui),
        vec![format!(
            "Detected jest (Node.js) project, wrote {}",
            "/p/inquest.toml"
        )]
    );
}

#[test]
fn test_auto_vitest_priority_over_jest() {
    let mut f = project();
    f.files.insert("package.json", Some(r#"{"devDependencies":{"vitest":"^1","jest":"^29"}}"#.to_string()));

    let mut ui = Transcript::new();
    let cmd = AutoCommand::new(Some("/p".to_string()));
    let (result, _) = execute(&cmd, &f, &mut ui);

    assert_eq!(result, 0);
    assert_eq!(
        outputs(&ui),
        vec![format!(
            "Detected vitest (Node.js) project, wrote {}",
            "/p/inquest.toml"
        )]
    );
}

#[test]
fn test_auto_node_no_test_runner_not_detected() {
    let mut f = project();
    f.files.insert("package.json", Some(r#"{"name":"foo","dependencies":{"lodash":"^4"}}"#.to_string()));

    let mut ui = Transcript::new();
    let cmd = AutoCommand::new(Some("/p".to_string()));
    let (result, _) = execute(&cmd, &f, &mut ui);

    assert_eq!(result, 1);
}

#[test]
fn test_auto_package_json_invalid_json_no_panic() {
    let mut f = project();
    f.files.insert("package.json", Some("not json {".to_string()));

    let mut ui = Transcript::new();
    let cmd = AutoCommand::new(Some("/p".to_string()));
    let (result, _) = execute(&cmd, &f, &mut ui);

    // Falls through to "no project detected" since package.json is unparseable.
    assert_eq!(result, 1);
}

#[test]
fn test_format_toml_all_fields() {
    let detection = Detection {
        name: "test",
        test_command: "test-cmd $LISTOPT $IDOPTION",
        test_id_option: Some("--load-list $IDFILE"),
        test_list_option: Some("--list"),
    };
    assert_eq!(
        format_toml(&detection),
        "test_command = \"test-cmd $LISTOPT $IDOPTION\"\n\
         test_id_option = \"--load-list $IDFILE\"\n\
         test_list_option = \"--list\"\n"
    );
}

#[test]
fn test_format_toml_minimal() {
    let detection = Detection {
        name: "test",
        test_command: "test-cmd",
        test_id_option: None,
        test_list_option: None,
    };
    assert_eq!(format_toml(&detection), "test_command = \"test-cmd\"\n");
}

#[test]
fn auto_command_name_and_help() {
    let cmd = AutoCommand::new(None);
    assert_eq!(cmd.name(), "auto");
    assert_eq!(cmd.help(), "Auto-detect project type and generate inquest.toml");
}

#[test]
fn a_file_that_cannot_be_written_is_told() {
    let mut f = project();
    f.files.insert("go.mod", None);
    let mut ui = Transcript::new();
    let cmd = AutoCommand::new(None);
    let file = cmd.begin(&f, &mut ui).unwrap();
    let err = cmd.finish(&file, Err("full".to_string()), &mut ui).unwrap_err();
    assert_eq!(
        err.message(),
        "Configuration error: Failed to write ./inquest.toml: full"
    );
}

#[test]
fn kinds_of_projects_are_listed_by_preference() {
    let mut f = project();
    f.files.insert("setup.cfg", Some("[tool:pytest]\n".to_string()));
    f.files.insert("jest.config.mjs", None);
    f.perl_tests.push(".t".to_string());
    let names: Vec<&str> = detect_project(&f).iter().map(|d| d.name).collect();
    assert_eq!(
        names,
        vec!["pytest (Python)", "unittest/subunit (Python)", "jest (Node.js)"]
    );
}

#[test]
fn packages_name_what_they_depend_on() {
    let text = r#"{"peerDependencies":{"jest":"1"},"scripts":{"vitest":"x"},"a":3}"#;
    assert!(package_json_mentions(text, "jest"));
    assert!(package_json_mentions(text, "a"));
    assert!(!package_json_mentions(text, "vitest"));
    assert!(!package_json_mentions("[1]", "jest"));
    let members = vec![JsonMember {
        name: "devDependencies".to_string(),
        members: Some(vec!["vitest".to_string()]),
    }];
    assert!(package_names(&members, "vitest"));
    assert!(package_names(&members, "devDependencies"));
    assert!(!package_names(&members, "jest"));
}

#[test]
fn quotes_are_escaped_in_settings() {
    let d = Detection {
        name: "x",
        test_command: "run \"it\" \\n",
        test_id_option: None,
        test_list_option: None,
    };
    assert_eq!(format_toml(&d), "test_command = \"run \\\"it\\\" \\\\n\"\n");
}
