use inquest::collection::TextMap;
use inquest::commands::config::{format_duration, ConfigCommand, Source};
use inquest::commands::Command;
use inquest::time::Duration;
use inquest::ui::{Message, Transcript};

fn outputs(ui: &Transcript) -> Vec<String> {
    ui.messages
        .iter()
        .filter_map(|m| match m {
            Message::Output(s) => Some(s.clone()),
            _ => None,
        })
        .collect()
}

fn files(toml: Option<&str>) -> TextMap<Result<String, String>> {
    let mut found = TextMap::new();
    if let Some(text) = toml {
        found.insert("inquest.toml", Ok(text.to_string()));
    }
    found
}

#[test]
fn shows_no_config_file_when_missing() {
    let found = files(None);
    let mut ui = Transcript::new();
    let cmd = ConfigCommand::new(None);
    let exit = cmd.execute(&found, &mut ui).unwrap();
    assert_eq!(exit, 0);

    let joined = outputs(&ui).join("\n");
    assert!(
        joined.contains("Config file: (none found)"),
        "got: {}",
        joined
    );
    assert!(
        joined.contains("test_timeout: disabled [default]"),
        "got: {}",
        joined
    );
    assert!(
        joined.contains("max_duration: disabled [default]"),
        "got: {}",
        joined
    );
    assert!(
        joined.contains("no_output_timeout: disabled [default]"),
        "got: {}",
        joined,
    );
    assert!(
        joined.contains("test_order: discovery [default]"),
        "got: {}",
        joined
    );
    assert!(
        joined.contains("concurrency: 1 (serial) [default]"),
        "got: {}",
        joined
    );
}

#[test]
fn reads_values_from_config_file() {
    let found = files(Some(r#"
test_command = "python -m subunit.run $IDOPTION"
test_id_option = "--load-list $IDFILE"
test_list_option = "--list"
test_timeout = "5m"
max_duration = "1h"
no_output_timeout = "60s"
test_order = "alphabetical"
"#));

    let mut ui = Transcript::new();
    let cmd = ConfigCommand::new(None);
    cmd.execute(&found, &mut ui).unwrap();

    let joined = outputs(&ui).join("\n");
    assert!(joined.contains("test_command: python -m subunit.run $IDOPTION [config]"));
    assert!(joined.contains("test_id_option: --load-list $IDFILE [config]"));
    assert!(joined.contains("test_list_option: --list [config]"));
    assert!(joined.contains("test_timeout: 5m [config]"));
    assert!(joined.contains("max_duration: 1h [config]"));
    assert!(joined.contains("no_output_timeout: 60s [config]"));
    assert!(joined.contains("test_order: alphabetical [config]"));
}

#[test]
fn cli_flags_override_config() {
    let found = files(Some(r#"
test_command = "python -m test"
test_timeout = "5m"
test_order = "alphabetical"
"#));

    let mut ui = Transcript::new();
    let cmd = ConfigCommand {
        base_path: None,
        test_timeout: Some("auto".to_string()),
        max_duration: Some("30m".to_string()),
        no_output_timeout: Some("90s".to_string()),
        order: Some("failing-first".to_string()),
        concurrency: Some(4),
        profile: None,
        list_profiles: false,
    };
    cmd.execute(&found, &mut ui).unwrap();

    let joined = outputs(&ui).join("\n");
    assert!(
        joined.contains("test_timeout: auto [cli]"),
        "got: {}",
        joined
    );
    assert!(
        joined.contains("max_duration: 30m [cli]"),
        "got: {}",
        joined
    );
    assert!(
        joined.contains("no_output_timeout: 90s [cli]"),
        "got: {}",
        joined
    );
    assert!(
        joined.contains("test_order: failing-first [cli]"),
        "got: {}",
        joined
    );
    assert!(joined.contains("concurrency: 4 [cli]"), "got: {}", joined);
}

#[test]
fn invalid_cli_timeout_errors() {
    let found = files(None);
    let mut ui = Transcript::new();
    let cmd = ConfigCommand {
        base_path: None,
        test_timeout: Some("not-a-duration".to_string()),
        max_duration: None,
        no_output_timeout: None,
        order: None,
        concurrency: None,
        profile: None,
        list_profiles: false,
    };
    assert!(cmd.execute(&found, &mut ui).is_err());
}

#[test]
fn shows_unset_for_optional_fields() {
    let found = files(Some(r#"test_command = "echo""#));

    let mut ui = Transcript::new();
    let cmd = ConfigCommand::new(None);
    cmd.execute(&found, &mut ui).unwrap();

    let joined = outputs(&ui).join("\n");
    assert!(
        joined.contains("test_id_option: (unset)"),
        "got: {}",
        joined
    );
    assert!(
        joined.contains("test_list_option: (unset)"),
        "got: {}",
        joined
    );
    assert!(joined.contains("group_regex: (unset)"), "got: {}", joined);
}

#[test]
fn profile_overlay_is_labelled() {
    let found = files(Some(r#"
test_command = "echo"
test_timeout = "1m"

[profiles.ci]
test_timeout = "5m"
"#));

    let mut ui = Transcript::new();
    let cmd = ConfigCommand {
        base_path: None,
        profile: Some("ci".to_string()),
        ..ConfigCommand::new(None)
    };
    cmd.execute(&found, &mut ui).unwrap();

    let joined = outputs(&ui).join("\n");
    assert!(joined.contains("Active profile: ci"), "got: {}", joined);
    assert!(
        joined.contains("test_timeout: 5m [profile:ci]"),
        "got: {}",
        joined
    );
    // Untouched base field shows [config], not [profile:ci].
    assert!(
        joined.contains("test_command: echo [config]"),
        "got: {}",
        joined
    );
}

#[test]
fn list_profiles_lists_names() {
    let found = files(Some(r#"
test_command = "echo"
default_profile = "ci"

[profiles.ci]
test_timeout = "5m"

[profiles.nightly]
test_timeout = "30m"
"#));

    let mut ui = Transcript::new();
    let cmd = ConfigCommand {
        base_path: None,
        list_profiles: true,
        ..ConfigCommand::new(None)
    };
    cmd.execute(&found, &mut ui).unwrap();

    let joined = outputs(&ui).join("\n");
    assert!(joined.contains("Profiles:"), "got: {}", joined);
    assert!(joined.contains("  ci"), "got: {}", joined);
    assert!(joined.contains("  nightly"), "got: {}", joined);
    assert!(joined.contains("default_profile: ci"), "got: {}", joined);
}

#[test]
fn list_profiles_when_none_defined() {
    let found = files(Some(r#"test_command = "echo""#));

    let mut ui = Transcript::new();
    let cmd = ConfigCommand {
        base_path: None,
        list_profiles: true,
        ..ConfigCommand::new(None)
    };
    cmd.execute(&found, &mut ui).unwrap();

    let joined = outputs(&ui).join("\n");
    assert!(joined.contains("No profiles defined"), "got: {}", joined);
}

#[test]
fn unknown_profile_errors() {
    let found = files(Some(r#"
test_command = "echo"

[profiles.ci]
test_timeout = "5m"
"#));

    let mut ui = Transcript::new();
    let cmd = ConfigCommand {
        base_path: None,
        profile: Some("nope".to_string()),
        ..ConfigCommand::new(None)
    };
    let err = cmd.execute(&found, &mut ui).unwrap_err().message();
    assert_eq!(
        err,
        "Configuration error: profile 'nope' is not defined; available profiles: ci"
    );
}

#[test]
fn config_command_name_and_help() {
    let cmd = ConfigCommand::new(None);
    assert_eq!(cmd.name(), "config");
    assert!(cmd.help().contains("effective configuration"));
}

#[test]
fn config_sources_have_labels() {
    assert_eq!(Source::Cli.label(), "cli");
    assert_eq!(Source::Profile("ci".to_string()).label(), "profile:ci");
    assert_eq!(Source::Config.label(), "config");
    assert_eq!(Source::Default.label(), "default");
}

#[test]
fn durations_are_shown_in_the_largest_unit_that_divides() {
    assert_eq!(format_duration(Duration::from_millis(250)), "250ms");
    assert_eq!(format_duration(Duration::from_secs(59)), "59s");
    assert_eq!(format_duration(Duration::from_secs(60)), "1m");
    assert_eq!(format_duration(Duration::from_secs(90)), "90s");
    assert_eq!(format_duration(Duration::from_secs(7200)), "2h");
}

#[test]
fn concurrency_zero_stands_for_the_processors() {
    let mut ui = Transcript::new();
    let mut cmd = ConfigCommand::new(None);
    cmd.concurrency = Some(0);
    cmd.no_output_timeout = Some(" Disabled ".to_string());
    assert_eq!(cmd.execute_on(&None, 6, &mut ui).unwrap(), 0);
    let lines = outputs(&ui);
    assert_eq!(lines.last().unwrap(), "concurrency: 6 (auto / cpu count) [cli]");
    assert!(lines.contains(&"no_output_timeout: disabled [cli]".to_string()));
    assert_eq!(lines[0], "Config file: (none found)");
    assert_eq!(lines[1], "Working directory: .");
}

#[test]
fn settings_before_a_wrong_one_are_shown() {
    let mut ui = Transcript::new();
    let mut cmd = ConfigCommand::new(None);
    cmd.max_duration = Some("soon".to_string());
    assert!(cmd.execute_on(&None, 1, &mut ui).is_err());
    assert_eq!(outputs(&ui).last().unwrap(), "test_timeout: disabled [default]");
}

#[test]
fn configured_values_are_shown_as_written() {
    let found = files(Some("test_command = \"x\"\ntest_timeout = \" 300s \"\nno_output_timeout = \"disabled\"\n"));
    let mut ui = Transcript::new();
    let cmd = ConfigCommand::new(Some("/srv/p".to_string()));
    cmd.execute(&found, &mut ui).unwrap();
    let lines = outputs(&ui);
    assert_eq!(lines[0], "Config file: /srv/p/inquest.toml");
    assert_eq!(lines[1], "Working directory: /srv/p");
    assert!(lines.contains(&"test_timeout: 300s [config]".to_string()));
    assert!(lines.contains(&"no_output_timeout: disabled [config]".to_string()));
}
