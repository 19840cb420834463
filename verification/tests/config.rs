use inquest::collection::TextMap;
use inquest::config::file::{
    has_config_file, join_path, progress_disabled_for, validate_profile_name, ConfigFile,
};
use inquest::config::resolved::TestrConfig;
use inquest::config::timeout::{parse_duration_string, TimeoutSetting};
use inquest::ordering::TestOrder;
use inquest::time::Duration;

#[test]
fn test_progress_disabled_for() {
    assert!(!progress_disabled_for(None));
    assert!(!progress_disabled_for(Some("")));
    assert!(!progress_disabled_for(Some("0")));
    assert!(progress_disabled_for(Some("1")));
    assert!(progress_disabled_for(Some("true")));
    assert!(progress_disabled_for(Some("yes")));
}

#[test]
fn test_parse_basic_config() {
    let config_str = r#"
[DEFAULT]
test_command=python -m subunit.run discover
"#;

    let config = TestrConfig::parse(config_str).unwrap();
    assert_eq!(config.test_command, "python -m subunit.run discover");
    assert!(config.test_id_option.is_none());
    assert!(config.test_list_option.is_none());
}

#[test]
fn test_parse_full_config() {
    let config_str = r#"
[DEFAULT]
test_command=python -m subunit.run $IDOPTION
test_id_option=--load-list $IDFILE
test_list_option=--list
test_id_list_default=
filter_tags=worker-0
group_regex=^(.*\.)[^.]+$
"#;

    let config = TestrConfig::parse(config_str).unwrap();
    assert_eq!(config.test_command, "python -m subunit.run $IDOPTION");
    assert_eq!(
        config.test_id_option,
        Some("--load-list $IDFILE".to_string())
    );
    assert_eq!(config.test_list_option, Some("--list".to_string()));
    assert_eq!(config.test_id_list_default, Some("".to_string()));
    assert_eq!(config.filter_tags, Some("worker-0".to_string()));
    assert_eq!(config.group_regex, Some("^(.*\\.)[^.]+$".to_string()));
}

#[test]
fn test_missing_test_command() {
    let config_str = r#"
[DEFAULT]
test_list_option=--list
"#;

    let result = TestrConfig::parse(config_str);
    assert!(result.is_err());
    assert!(result.unwrap_err().message().contains("test_command"));
}

#[test]
fn test_missing_default_section() {
    let config_str = r#"
[OTHER]
test_command=foo
"#;

    let result = TestrConfig::parse(config_str);
    assert!(result.is_err());
    assert!(result.unwrap_err().message().contains("DEFAULT"));
}

#[test]
fn test_idoption_without_test_id_option() {
    let config_str = r#"
[DEFAULT]
test_command=python -m test $IDOPTION
"#;

    let result = TestrConfig::parse(config_str);
    assert!(result.is_err());
    assert!(result.unwrap_err().message().contains("IDOPTION"));
}

#[test]
fn test_listopt_without_test_list_option() {
    let config_str = r#"
[DEFAULT]
test_command=python -m test $LISTOPT
"#;

    let result = TestrConfig::parse(config_str);
    assert!(result.is_err());
    assert!(result.unwrap_err().message().contains("LISTOPT"));
}

#[test]
fn test_substitute_variables() {
    let config = TestrConfig {
        test_command: "python -m test $IDOPTION $LISTOPT".to_string(),
        test_id_option: Some("--load-list $IDFILE".to_string()),
        ..Default::default()
    };

    let mut vars = TextMap::new();
    vars.insert("IDOPTION", "--load-list failing.list".to_string());
    vars.insert("LISTOPT", "--list".to_string());

    let result = config.substitute_variables(&config.test_command, &vars);
    assert_eq!(result, "python -m test --load-list failing.list --list");
}

#[test]
fn test_substitute_nested_variables() {
    let config = TestrConfig::default();

    let mut vars = TextMap::new();
    vars.insert("IDFILE", "test_ids.txt".to_string());

    let cmd = "--load-list $IDFILE";
    let result = config.substitute_variables(cmd, &vars);
    assert_eq!(result, "--load-list test_ids.txt");
}

#[test]
fn test_parse_toml_basic() {
    let config_str = r#"
test_command = "python -m subunit.run discover"
"#;

    let config = TestrConfig::parse_toml(config_str).unwrap();
    assert_eq!(config.test_command, "python -m subunit.run discover");
    assert!(config.test_id_option.is_none());
    assert!(config.test_list_option.is_none());
}

#[test]
fn test_parse_toml_full() {
    let config_str = r#"
test_command = "python -m subunit.run $IDOPTION"
test_id_option = "--load-list $IDFILE"
test_list_option = "--list"
test_id_list_default = ""
filter_tags = "worker-0"
group_regex = '^(.*\.)[^.]+$'
"#;

    let config = TestrConfig::parse_toml(config_str).unwrap();
    assert_eq!(config.test_command, "python -m subunit.run $IDOPTION");
    assert_eq!(
        config.test_id_option,
        Some("--load-list $IDFILE".to_string())
    );
    assert_eq!(config.test_list_option, Some("--list".to_string()));
    assert_eq!(config.test_id_list_default, Some("".to_string()));
    assert_eq!(config.filter_tags, Some("worker-0".to_string()));
    assert_eq!(config.group_regex, Some("^(.*\\.)[^.]+$".to_string()));
}

#[test]
fn test_parse_toml_missing_test_command() {
    let config_str = r#"
test_list_option = "--list"
"#;

    let result = TestrConfig::parse_toml(config_str);
    assert!(result.is_err());
    assert!(result.unwrap_err().message().contains("test_command"));
}

#[test]
fn test_parse_toml_idoption_without_test_id_option() {
    let config_str = r#"
test_command = "python -m test $IDOPTION"
"#;

    let result = TestrConfig::parse_toml(config_str);
    assert!(result.is_err());
    assert!(result.unwrap_err().message().contains("IDOPTION"));
}

#[test]
fn test_find_in_directory_inquest_toml() {
    let mut files = TextMap::new();
    files.insert("inquest.toml", Ok(r#"test_command = "python -m test""#.to_string()));

    let (config, path) = TestrConfig::find_in_directory("/p", &files).unwrap();
    assert_eq!(config.test_command, "python -m test");
    assert_eq!(path, "/p/inquest.toml");
}

#[test]
fn test_find_in_directory_dot_inquest_toml() {
    let mut files = TextMap::new();
    files.insert(".inquest.toml", Ok(r#"test_command = "python -m test""#.to_string()));

    let (config, path) = TestrConfig::find_in_directory("/p", &files).unwrap();
    assert_eq!(config.test_command, "python -m test");
    assert_eq!(path, "/p/.inquest.toml");
}

#[test]
fn test_find_in_directory_testr_conf() {
    let mut files = TextMap::new();
    files.insert(".testr.conf", Ok("[DEFAULT]\ntest_command=python -m test\n".to_string()));

    let (config, path) = TestrConfig::find_in_directory("/p", &files).unwrap();
    assert_eq!(config.test_command, "python -m test");
    assert_eq!(path, "/p/.testr.conf");
}

#[test]
fn test_find_in_directory_priority() {
    let mut files = TextMap::new();

    // Create both files; inquest.toml should win
    files.insert("inquest.toml", Ok(r#"test_command = "from-inquest-toml""#.to_string()));
    files.insert(".testr.conf", Ok("[DEFAULT]\ntest_command=from-testr-conf\n".to_string()));

    let (config, path) = TestrConfig::find_in_directory("/p", &files).unwrap();
    assert_eq!(config.test_command, "from-inquest-toml");
    assert_eq!(path, "/p/inquest.toml");
}

#[test]
fn test_find_in_directory_none_found() {
    let files = TextMap::new();
    let result = TestrConfig::find_in_directory("/p", &files);
    assert!(result.is_err());
    let err = result.unwrap_err().message();
    assert!(err.contains("inquest.toml"));
    assert!(err.contains(".testr.conf"));
}

#[test]
fn test_parse_duration_string_seconds() {
    assert_eq!(
        parse_duration_string("30s").unwrap(),
        Duration::from_secs(30)
    );
    assert_eq!(
        parse_duration_string("300").unwrap(),
        Duration::from_secs(300)
    );
}

#[test]
fn test_parse_duration_string_minutes() {
    assert_eq!(
        parse_duration_string("5m").unwrap(),
        Duration::from_secs(300)
    );
}

#[test]
fn test_parse_duration_string_hours() {
    assert_eq!(
        parse_duration_string("1h").unwrap(),
        Duration::from_secs(3600)
    );
}

#[test]
fn test_parse_duration_string_combined() {
    assert_eq!(
        parse_duration_string("1h30m").unwrap(),
        Duration::from_secs(5400)
    );
}

#[test]
fn test_parse_duration_string_invalid() {
    assert!(parse_duration_string("").is_err());
    assert!(parse_duration_string("abc").is_err());
    assert!(parse_duration_string("5x").is_err());
}

#[test]
fn test_parse_duration_string_fractional() {
    assert_eq!(
        parse_duration_string("1.5m").unwrap(),
        Duration::from_secs(90)
    );
    assert_eq!(
        parse_duration_string("0.5h").unwrap(),
        Duration::from_secs(1800)
    );
}

#[test]
fn test_parse_duration_string_zero_is_error() {
    assert!(parse_duration_string("0").is_err());
    assert!(parse_duration_string("0s").is_err());
}

#[test]
fn test_timeout_setting_parse_disabled() {
    assert_eq!(
        TimeoutSetting::parse("disabled").unwrap(),
        TimeoutSetting::Disabled
    );
    assert_eq!(TimeoutSetting::parse("").unwrap(), TimeoutSetting::Disabled);
    assert_eq!(
        TimeoutSetting::parse("DISABLED").unwrap(),
        TimeoutSetting::Disabled
    );
}

#[test]
fn test_timeout_setting_parse_auto() {
    assert_eq!(TimeoutSetting::parse("auto").unwrap(), TimeoutSetting::Auto);
    assert_eq!(TimeoutSetting::parse("AUTO").unwrap(), TimeoutSetting::Auto);
}

#[test]
fn test_timeout_setting_parse_fixed() {
    assert_eq!(
        TimeoutSetting::parse("5m").unwrap(),
        TimeoutSetting::Fixed(Duration::from_secs(300))
    );
}

#[test]
fn test_timeout_setting_effective_disabled() {
    let t = TimeoutSetting::Disabled;
    assert_eq!(t.effective_timeout(None), None);
    assert_eq!(t.effective_timeout(Some(Duration::from_secs(10))), None);
}

#[test]
fn test_timeout_setting_effective_fixed() {
    let t = TimeoutSetting::Fixed(Duration::from_secs(300));
    assert_eq!(t.effective_timeout(None), Some(Duration::from_secs(300)));
    assert_eq!(
        t.effective_timeout(Some(Duration::from_secs(10))),
        Some(Duration::from_secs(300))
    );
}

#[test]
fn test_timeout_setting_effective_auto_with_history() {
    let t = TimeoutSetting::Auto;
    // 10s * 10x = 100s, but minimum is 30s so 100s wins
    assert_eq!(
        t.effective_timeout(Some(Duration::from_secs(10))),
        Some(Duration::from_secs(100))
    );
}

#[test]
fn test_timeout_setting_effective_auto_with_small_history() {
    let t = TimeoutSetting::Auto;
    // 1s * 10x = 10s, below minimum of 30s
    assert_eq!(
        t.effective_timeout(Some(Duration::from_secs(1))),
        Some(Duration::from_secs(30))
    );
}

#[test]
fn test_timeout_setting_effective_auto_no_history() {
    let t = TimeoutSetting::Auto;
    // No history, uses minimum of 30s
    assert_eq!(t.effective_timeout(None), Some(Duration::from_secs(30)));
}

#[test]
fn test_config_parsed_timeout_fields() {
    let config_str = r#"
test_command = "python -m test"
test_timeout = "5m"
max_duration = "auto"
no_output_timeout = "60s"
"#;
    let config = TestrConfig::parse_toml(config_str).unwrap();
    assert_eq!(
        config.parsed_test_timeout().unwrap(),
        TimeoutSetting::Fixed(Duration::from_secs(300))
    );
    assert_eq!(config.parsed_max_duration().unwrap(), TimeoutSetting::Auto);
    assert_eq!(
        config.parsed_no_output_timeout().unwrap(),
        Some(Duration::from_secs(60))
    );
}

#[test]
fn test_config_parsed_timeout_fields_defaults() {
    let config_str = r#"
test_command = "python -m test"
"#;
    let config = TestrConfig::parse_toml(config_str).unwrap();
    assert_eq!(
        config.parsed_test_timeout().unwrap(),
        TimeoutSetting::Disabled
    );
    assert_eq!(
        config.parsed_max_duration().unwrap(),
        TimeoutSetting::Disabled
    );
    assert_eq!(config.parsed_no_output_timeout().unwrap(), None);
}

#[test]
fn test_parsed_filter_tags_unset() {
    let config = TestrConfig::parse_toml(r#"test_command = "echo""#).unwrap();
    assert_eq!(config.parsed_filter_tags(), Vec::<String>::new());
}

#[test]
fn test_parsed_filter_tags_space_separated() {
    let config_str = r#"
test_command = "echo"
filter_tags = "worker-0  !slow"
"#;
    let config = TestrConfig::parse_toml(config_str).unwrap();
    assert_eq!(
        config.parsed_filter_tags(),
        vec!["worker-0".to_string(), "!slow".to_string()]
    );
}

// ----- Profile tests -----

#[test]
fn profile_overlay_overrides_base_fields() {
    let cfg = ConfigFile::parse_toml(
        r#"
test_command = "python -m test"
test_timeout = "1m"
test_order = "discovery"

[profiles.ci]
test_timeout = "5m"
test_order = "alphabetical"
"#,
    )
    .unwrap();

    let (resolved, active) = cfg.resolve(Some("ci")).unwrap();
    assert_eq!(active.as_deref(), Some("ci"));
    assert_eq!(resolved.test_command, "python -m test");
    assert_eq!(resolved.test_timeout.as_deref(), Some("5m"));
    assert_eq!(resolved.test_order.as_deref(), Some("alphabetical"));
}

#[test]
fn profile_overlay_leaves_unset_fields_alone() {
    let cfg = ConfigFile::parse_toml(
        r#"
test_command = "python -m test"
filter_tags = "worker-0"

[profiles.ci]
test_timeout = "5m"
"#,
    )
    .unwrap();

    let (resolved, _) = cfg.resolve(Some("ci")).unwrap();
    assert_eq!(resolved.filter_tags.as_deref(), Some("worker-0"));
    assert_eq!(resolved.test_timeout.as_deref(), Some("5m"));
}

#[test]
fn profile_empty_string_overrides_base() {
    // A profile setting `filter_tags = ""` should clear the base value,
    // not be treated as "unset, use base".
    let cfg = ConfigFile::parse_toml(
        r#"
test_command = "echo"
filter_tags = "worker-0"

[profiles.nightly]
filter_tags = ""
"#,
    )
    .unwrap();

    let (resolved, _) = cfg.resolve(Some("nightly")).unwrap();
    assert_eq!(resolved.filter_tags.as_deref(), Some(""));
    assert_eq!(resolved.parsed_filter_tags(), Vec::<String>::new());
}

#[test]
fn profile_resolve_default_returns_base() {
    let cfg = ConfigFile::parse_toml(
        r#"
test_command = "echo"
test_timeout = "1m"

[profiles.ci]
test_timeout = "5m"
"#,
    )
    .unwrap();

    let (resolved, active) = cfg.resolve(None).unwrap();
    assert!(active.is_none());
    assert_eq!(resolved.test_timeout.as_deref(), Some("1m"));
}

#[test]
fn profile_default_keyword_is_base() {
    let cfg = ConfigFile::parse_toml(
        r#"
test_command = "echo"
test_timeout = "1m"

[profiles.ci]
test_timeout = "5m"
"#,
    )
    .unwrap();

    let (resolved, active) = cfg.resolve(Some("default")).unwrap();
    assert!(active.is_none());
    assert_eq!(resolved.test_timeout.as_deref(), Some("1m"));
}

#[test]
fn profile_unknown_name_is_an_error() {
    let cfg = ConfigFile::parse_toml(
        r#"
test_command = "echo"

[profiles.ci]
test_timeout = "5m"
"#,
    )
    .unwrap();

    let err = cfg.resolve(Some("nope")).unwrap_err().message();
    assert_eq!(
        err,
        "Configuration error: profile 'nope' is not defined; available profiles: ci"
    );
}

#[test]
fn profile_unknown_name_with_no_profiles_defined() {
    let cfg = ConfigFile::parse_toml(r#"test_command = "echo""#).unwrap();
    let err = cfg.resolve(Some("nope")).unwrap_err().message();
    assert_eq!(
        err,
        "Configuration error: profile 'nope' is not defined; no profiles are defined"
    );
}

#[test]
fn profiles_default_is_reserved() {
    let err = ConfigFile::parse_toml(
        r#"
test_command = "echo"

[profiles.default]
test_timeout = "5m"
"#,
    )
    .unwrap_err()
    .message();
    assert_eq!(
        err,
        "Configuration error: [profiles.default] is reserved; the top-level table is the implicit default"
    );
}

#[test]
fn invalid_profile_name_is_rejected() {
    let err = ConfigFile::parse_toml(
        r#"
test_command = "echo"

[profiles."has space"]
test_timeout = "5m"
"#,
    )
    .unwrap_err()
    .message();
    assert_eq!(
        err,
        "Configuration error: invalid profile name 'has space': must not contain '.', '/', or whitespace"
    );
}

#[test]
fn profile_name_starting_with_underscore_is_rejected() {
    let err = ConfigFile::parse_toml(
        r#"
test_command = "echo"

[profiles._internal]
test_timeout = "5m"
"#,
    )
    .unwrap_err()
    .message();
    assert_eq!(
        err,
        "Configuration error: invalid profile name '_internal': must not start with '_'"
    );
}

#[test]
fn default_profile_must_exist() {
    let err = ConfigFile::parse_toml(
        r#"
test_command = "echo"
default_profile = "nope"

[profiles.ci]
test_timeout = "5m"
"#,
    )
    .unwrap_err()
    .message();
    assert_eq!(
        err,
        "Configuration error: default_profile 'nope' is not defined; available profiles: ci"
    );
}

#[test]
fn default_profile_applies_when_no_selection() {
    let cfg = ConfigFile::parse_toml(
        r#"
test_command = "echo"
test_timeout = "1m"
default_profile = "ci"

[profiles.ci]
test_timeout = "5m"
"#,
    )
    .unwrap();

    let (resolved, active) = cfg.resolve(None).unwrap();
    assert_eq!(active.as_deref(), Some("ci"));
    assert_eq!(resolved.test_timeout.as_deref(), Some("5m"));
}

#[test]
fn explicit_selection_overrides_default_profile() {
    let cfg = ConfigFile::parse_toml(
        r#"
test_command = "echo"
default_profile = "ci"

[profiles.ci]
test_timeout = "5m"

[profiles.dev]
test_timeout = "10m"
"#,
    )
    .unwrap();

    let (resolved, active) = cfg.resolve(Some("dev")).unwrap();
    assert_eq!(active.as_deref(), Some("dev"));
    assert_eq!(resolved.test_timeout.as_deref(), Some("10m"));
}

#[test]
fn profile_can_supply_test_command_when_base_lacks_it() {
    let cfg = ConfigFile::parse_toml(
        r#"
[profiles.ci]
test_command = "python -m test"
"#,
    )
    .unwrap();

    // Base alone would fail cross-field validation (no test_command)…
    assert!(cfg.resolve(None).is_err());
    // …but the profile supplies it.
    let (resolved, _) = cfg.resolve(Some("ci")).unwrap();
    assert_eq!(resolved.test_command, "python -m test");
}

#[test]
fn profile_per_layer_validation_catches_bad_test_order() {
    let err = ConfigFile::parse_toml(
        r#"
test_command = "echo"

[profiles.ci]
test_order = "bogus"
"#,
    )
    .unwrap_err()
    .message();
    assert_eq!(
        err,
        "Configuration error: profile 'ci': unknown test order 'bogus': \
         expected one of auto, discovery, alphabetical, failing-first, spread, \
         shuffle[:<seed>], slowest-first, fastest-first, frequent-failing-first"
    );
}

#[test]
fn fields_from_profile_reports_overlaid_keys() {
    let cfg = ConfigFile::parse_toml(
        r#"
test_command = "echo"
filter_tags = "worker-0"

[profiles.ci]
test_timeout = "5m"
filter_tags = ""
"#,
    )
    .unwrap();
    let mut from = cfg.fields_from_profile(Some("ci"));
    from.sort();
    assert_eq!(from, vec!["filter_tags", "test_timeout"]);
}

#[test]
fn fields_from_profile_empty_when_no_profile_active() {
    let cfg = ConfigFile::parse_toml(
        r#"
test_command = "echo"

[profiles.ci]
test_timeout = "5m"
"#,
    )
    .unwrap();
    let from = cfg.fields_from_profile(None);
    assert_eq!(from, Vec::<&str>::new());

    let from = cfg.fields_from_profile(Some("default"));
    assert_eq!(from, Vec::<&str>::new());
}

#[test]
fn profile_names_are_deterministically_ordered() {
    let cfg = ConfigFile::parse_toml(
        r#"
test_command = "echo"

[profiles.zeta]
test_timeout = "1m"

[profiles.alpha]
test_timeout = "2m"
"#,
    )
    .unwrap();
    assert_eq!(cfg.profile_names(), vec!["alpha", "zeta"]);
}

#[test]
fn flat_toml_still_loads_unchanged() {
    // Backwards compatibility: flat layout without any profiles.
    let cfg = ConfigFile::parse_toml(
        r#"
test_command = "cargo subunit $LISTOPT $IDOPTION"
test_id_option = "--load-list $IDFILE"
test_list_option = "--list"
"#,
    )
    .unwrap();
    assert!(cfg.profiles.is_empty());
    assert!(cfg.default_profile.is_none());

    let (resolved, active) = cfg.resolve(None).unwrap();
    assert!(active.is_none());
    assert_eq!(resolved.test_command, "cargo subunit $LISTOPT $IDOPTION");
}

#[test]
fn written_settings_can_be_read_back() {
    let config = TestrConfig::parse(
        "[DEFAULT]\ntest_command=run \"x\" $LISTOPT\ntest_list_option=--list\nfilter_tags=a 'b'\n",
    )
    .unwrap();
    let text = config.to_toml().unwrap();
    let again = TestrConfig::parse_toml(&text).unwrap();
    assert_eq!(again.test_command, config.test_command);
    assert_eq!(again.test_list_option, Some("--list".to_string()));
    assert_eq!(again.filter_tags, config.filter_tags);
    assert_eq!(again.group_regex, None);
}

#[test]
fn a_file_that_cannot_be_read_is_told() {
    let err = ConfigFile::load_from_file("/p/inquest.toml", &Err("gone".to_string())).unwrap_err();
    assert_eq!(
        err.message(),
        "Configuration error: Failed to read /p/inquest.toml: gone"
    );
    let mut files = TextMap::new();
    files.insert(".inquest.toml", Err("denied".to_string()));
    let err = ConfigFile::find_in_directory("/p", &files).unwrap_err();
    assert_eq!(
        err.message(),
        "Configuration error: Failed to read /p/.inquest.toml: denied"
    );
}

#[test]
fn wrong_documents_are_refused() {
    assert!(ConfigFile::parse_toml("test_command = ").is_err());
    assert!(ConfigFile::parse_toml("test_command = 3\n").is_err());
    assert!(ConfigFile::parse_ini("no section here").is_err());
}

fn toml_refusal(contents: &str) -> String {
    ConfigFile::parse_toml(contents).unwrap_err().message()
}

#[test]
fn a_setting_of_the_base_that_is_no_string_is_told_of_the_document() {
    let what = |message: &str, contents: &str, line: &str| {
        assert_eq!(
            toml_refusal(contents),
            format!(
                "Configuration error: Failed to parse TOML config: TOML parse error at line 1, \
                 column 1\n  |\n1 | {}\n  | ^\n{}\n",
                line, message
            )
        );
    };
    what(
        "invalid type: integer `3`, expected a string",
        "test_command = 3\n",
        "test_command = 3",
    );
    what(
        "invalid type: boolean `true`, expected a string",
        "test_command = \"x\"\nfilter_tags = true\n",
        "test_command = \"x\"",
    );
    what(
        "invalid type: sequence, expected a string",
        "filter_tags = [\"a\"]\ntest_command = 1.5\n",
        "filter_tags = [\"a\"]",
    );
    what(
        "invalid type: floating point `1.5`, expected a string",
        "test_command = 1.5\nfilter_tags = [\"a\"]\n",
        "test_command = 1.5",
    );
    what(
        "invalid type: map, expected a string",
        "test_command = { a = \"x\" }\n",
        "test_command = { a = \"x\" }",
    );
}

#[test]
fn a_setting_of_a_profile_that_is_no_string_is_told_in_its_place() {
    assert_eq!(
        toml_refusal("test_command = \"x\"\n\n[profiles.ci]\ntest_timeout = 300\n"),
        "Configuration error: Failed to parse TOML config: TOML parse error at line 4, column 16\n  \
         |\n4 | test_timeout = 300\n  |                ^^^\ninvalid type: integer `300`, expected a \
         string\n"
    );
}

#[test]
fn a_default_profile_that_is_no_string_is_told_before_the_base() {
    assert_eq!(
        toml_refusal("test_command = 3\ndefault_profile = false\n"),
        "Configuration error: Failed to parse TOML config: TOML parse error at line 2, column 19\n  \
         |\n2 | default_profile = false\n  |                   ^^^^^\ninvalid type: boolean `false`, \
         expected a string\n"
    );
}

#[test]
fn profiles_that_are_no_tables_are_refused() {
    assert_eq!(
        toml_refusal("profiles = \"ci\"\n"),
        "Configuration error: Failed to parse TOML config: TOML parse error at line 1, column 12\n  \
         |\n1 | profiles = \"ci\"\n  |            ^^^^\ninvalid type: string \"ci\", expected a map\n"
    );
    assert_eq!(
        toml_refusal("profiles = [1]\n"),
        "Configuration error: Failed to parse TOML config: TOML parse error at line 1, column 12\n  \
         |\n1 | profiles = [1]\n  |            ^^^\ninvalid type: sequence, expected a map\n"
    );
    assert_eq!(
        toml_refusal("profiles = 7\n"),
        "Configuration error: Failed to parse TOML config: TOML parse error at line 1, column 12\n  \
         |\n1 | profiles = 7\n  |            ^\ninvalid type: integer `7`, expected a map\n"
    );
    assert_eq!(
        toml_refusal("[profiles]\nci = \"fast\"\n"),
        "Configuration error: Failed to parse TOML config: TOML parse error at line 2, column 6\n  \
         |\n2 | ci = \"fast\"\n  |      ^^^^^^\ninvalid type: string \"fast\", expected struct \
         ConfigLayer\n"
    );
    assert_eq!(
        toml_refusal("[profiles]\nci = true\n"),
        "Configuration error: Failed to parse TOML config: TOML parse error at line 2, column 6\n  \
         |\n2 | ci = true\n  |      ^^^^\ninvalid type: boolean `true`, expected struct ConfigLayer\n"
    );
    assert_eq!(
        toml_refusal("profiles = 1979-05-27\n"),
        "Configuration error: Failed to parse TOML config: TOML parse error at line 1, column 12\n  \
         |\n1 | profiles = 1979-05-27\n  |            ^^^^^^^^^^\ninvalid type: string \
         \"1979-05-27\", expected struct ConfigLayer\n"
    );
}

#[test]
fn a_profile_may_list_its_settings_in_their_order() {
    let cfg = ConfigFile::parse_toml(
        "test_command = \"x\"\n[profiles]\nci = [\"y\", \"--ids\"]\nempty = 1979-05-27\n",
    )
    .unwrap();
    let ci = cfg.profiles.get("ci").unwrap();
    assert_eq!(ci.test_command, Some("y".to_string()));
    assert_eq!(ci.test_id_option, Some("--ids".to_string()));
    assert_eq!(ci.test_list_option, None);
    assert_eq!(cfg.profiles.get("empty").unwrap().test_command, None);
    assert_eq!(
        toml_refusal("[profiles]\nci = [\"y\", 2]\n"),
        "Configuration error: Failed to parse TOML config: TOML parse error at line 2, column 12\n  \
         |\n2 | ci = [\"y\", 2]\n  |            ^\ninvalid type: integer `2`, expected a string\n"
    );
}

#[test]
fn what_is_not_asked_for_may_be_anything_that_can_be_read() {
    let cfg = ConfigFile::parse_toml(
        "test_command = \"x\"\nextra = 9223372036854775808\n[other]\nlist = [1, 2.5, true]\n\
         [profiles.ci]\nextra = 170141183460469231731687303715884105727\n",
    )
    .unwrap();
    assert_eq!(cfg.base.test_command, Some("x".to_string()));
    assert!(cfg.profiles.contains_key("ci"));
    assert_eq!(
        toml_refusal("test_command = \"x\"\nextra = 99999999999999999999\n"),
        "Configuration error: Failed to parse TOML config: TOML parse error at line 2, column 9\n  \
         |\n2 | extra = 99999999999999999999\n  |         ^^^^^^^^^^^^^^^^^^^^\ninvalid type: integer \
         `99999999999999999999` as i128, expected any value\n"
    );
}

#[test]
fn durations_have_limits_and_reasons() {
    let why = |s: &str| parse_duration_string(s).unwrap_err().message();
    assert_eq!(why(" "), "Configuration error: empty duration string");
    assert_eq!(why("m"), "Configuration error: invalid duration string: 'm'");
    assert_eq!(
        why("1.2.3s"),
        "Configuration error: invalid number in duration string: '1.2.3s'"
    );
    assert_eq!(
        why("5d"),
        "Configuration error: invalid duration suffix 'd' in '5d' (use 's', 'm', or 'h', e.g. \
         '30s', '5m', '1h')"
    );
    assert_eq!(why("0"), "Configuration error: duration must be positive: '0'");
}

#[test]
fn profile_names_are_checked() {
    assert!(validate_profile_name("ci").is_ok());
    assert!(validate_profile_name("").is_err());
    assert!(validate_profile_name("a.b").is_err());
    assert!(validate_profile_name("a/b").is_err());
}

#[test]
fn orders_are_parsed_from_settings() {
    let config =
        TestrConfig::parse_toml("test_command = \"x\"\ntest_order = \"alphabetical\"\n").unwrap();
    assert_eq!(config.parsed_test_order().unwrap(), TestOrder::Alphabetical);
}

#[test]
fn paths_are_joined() {
    assert_eq!(join_path("/p", "x"), "/p/x");
    assert_eq!(join_path("/p/", "x"), "/p/x");
    assert_eq!(join_path("", "x"), "x");
    assert!(has_config_file(&vec!["a".to_string(), ".testr.conf".to_string()]));
    assert!(!has_config_file(&vec!["a".to_string()]));
}

#[test]
fn base_configuration_leaves_profiles_out() {
    let text = "test_command = \"echo\"\ntest_timeout = \"1m\"\ndefault_profile = \"ci\"\n\n\
                [profiles.ci]\ntest_timeout = \"5m\"\n";
    let config = TestrConfig::parse_toml(text).unwrap();
    assert_eq!(config.test_command, "echo");
    assert_eq!(config.test_timeout.as_deref(), Some("1m"));
    let loaded = TestrConfig::load_from_file("/p/inquest.toml", &Ok(text.to_string())).unwrap();
    assert_eq!(loaded.test_timeout.as_deref(), Some("1m"));
    let (resolved, active) = ConfigFile::parse_toml(text).unwrap().resolve(None).unwrap();
    assert_eq!(resolved.test_timeout.as_deref(), Some("5m"));
    assert_eq!(active.as_deref(), Some("ci"));
}

#[test]
fn durations_are_added_as_binary_fractions() {
    let cases: [(&str, &[(&str, f64)]); 9] = [
        ("0.1s0.2s", &[("0.1", 1.0), ("0.2", 1.0)]),
        ("1.1m", &[("1.1", 60.0)]),
        ("0.7h0.1m2.3", &[("0.7", 3600.0), ("0.1", 60.0), ("2.3", 1.0)]),
        ("123456789.987654321s", &[("123456789.987654321", 1.0)]),
        ("9007199254740993s", &[("9007199254740993", 1.0)]),
        ("0.0000000005s", &[("0.0000000005", 1.0)]),
        ("1.", &[("1.", 1.0)]),
        (".5m", &[(".5", 60.0)]),
        ("3.333333333333333333333333333333333333333h", &[(
            "3.333333333333333333333333333333333333333",
            3600.0,
        )]),
    ];
    for (text, parts) in cases {
        let mut total = 0.0;
        for (number, unit) in parts {
            total += number.parse::<f64>().unwrap() * unit;
        }
        let nanos = std::time::Duration::from_secs_f64(total).as_nanos();
        assert_eq!(
            parse_duration_string(text).unwrap(),
            Duration::from_nanos(nanos),
            "{}",
            text
        );
    }
    let small = format!("0.{}1", "0".repeat(400));
    assert_eq!(
        parse_duration_string(&small).unwrap_err().message(),
        format!("Configuration error: duration must be positive: '{}'", small)
    );
    let tiny = format!("0.{}1s", "0".repeat(300));
    assert_eq!(parse_duration_string(&tiny).unwrap(), Duration::from_nanos(0));
}
