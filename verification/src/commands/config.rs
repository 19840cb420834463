//! Showing the settings in effect.

use vstd::prelude::*;
use vstd::string::*;

use crate::collection::{entry_of, Named, TextMap};
use crate::commands::Command;
use crate::config::file::{config_file_name, contents_text, first_present, is_load_outcome, path_in, profile_fields, profile_keys, resolution, ConfigFile};
use crate::config::layer::optional_text;
use crate::config::resolved::TestrConfig;
use crate::config::timeout::{parse_duration_string, parsed_duration, parsed_timeout, says_disabled, Timeout, TimeoutSetting};
use crate::error::{outcome_view, Error, Failure, Result};
use crate::gather::gathered;
use crate::machine::cpu_count;
use crate::ordering::{order_text, parsed_order, TestOrder};
use crate::text::compose::{cat2, cat6, texts};
use crate::text::number::{count_text, decimal, decimal_text};
use crate::text::scan::{contains_text, eq_ignore_ascii_case, has_prefix, has_suffix, has_text, trim, trimmed};
use crate::time::Duration;
use crate::ui::{outputs, Transcript};

verus! {

broadcast use crate::text::compose::texts_push;

/// Where a setting comes from.
#[derive(Debug)]
pub enum Source {
    /// The command line.
    Cli,
    /// A profile.
    Profile(String),
    /// The configuration outside profiles.
    Config,
    /// Nowhere: it is what holds without a setting.
    Default,
}

/// How it is told where a setting comes from.
pub open spec fn source_text(s: Source) -> Seq<char> {
    match s {
        Source::Cli => "cli"@,
        Source::Profile(name) => "profile:"@ + name@,
        Source::Config => "config"@,
        Source::Default => "default"@,
    }
}

impl Source {
    /// How it is told where a setting comes from.
    pub fn label(&self) -> (s: String)
        ensures
            s@ == source_text(*self),
    {
        match self {
            Source::Cli => "cli".to_owned(),
            Source::Profile(name) => cat2("profile:", name.as_str()),
            Source::Config => "config".to_owned(),
            Source::Default => "default".to_owned(),
        }
    }
}

/// Command that shows the settings in effect.
#[derive(Debug)]
pub struct ConfigCommand {
    /// Where the project is.
    pub base_path: Option<String>,
    /// The timeout of each test.
    pub test_timeout: Option<String>,
    /// The timeout of the run.
    pub max_duration: Option<String>,
    /// How long a test may stay silent.
    pub no_output_timeout: Option<String>,
    /// The order of the tests.
    pub order: Option<String>,
    /// How many workers to use.
    pub concurrency: Option<usize>,
    /// The profile to use.
    pub profile: Option<String>,
    /// Whether to list the profiles instead.
    pub list_profiles: bool,
}

/// A span in the largest unit that divides its whole seconds.
pub open spec fn span_text(nanos: nat) -> Seq<char> {
    let secs = nanos / 1_000_000_000;
    if secs == 0 {
        decimal(nanos / 1_000_000) + "ms"@
    } else if secs >= 3600 && secs % 3600 == 0 {
        decimal(secs / 3600) + "h"@
    } else if secs >= 60 && secs % 60 == 0 {
        decimal(secs / 60) + "m"@
    } else {
        decimal(secs) + "s"@
    }
}

/// A timeout as it is shown.
pub open spec fn timeout_text(t: Timeout) -> Seq<char> {
    match t {
        Timeout::Disabled => "disabled"@,
        Timeout::Auto => "auto"@,
        Timeout::Fixed(n) => span_text(n),
    }
}

/// A span in the largest unit that divides its whole seconds.
pub fn format_duration(d: Duration) -> (s: String)
    ensures
        s@ == span_text(d@),
{
    let secs: u128 = d.as_nanos() / 1_000_000_000;
    if secs == 0 {
        cat2(decimal_text(d.as_millis()).as_str(), "ms")
    } else if secs >= 3600 && secs % 3600 == 0 {
        cat2(decimal_text(secs / 3600).as_str(), "h")
    } else if secs >= 60 && secs % 60 == 0 {
        cat2(decimal_text(secs / 60).as_str(), "m")
    } else {
        cat2(decimal_text(secs).as_str(), "s")
    }
}

/// A timeout as it is shown.
pub fn format_timeout(t: &TimeoutSetting) -> (s: String)
    ensures
        s@ == timeout_text(t@),
{
    match t {
        TimeoutSetting::Disabled => "disabled".to_owned(),
        TimeoutSetting::Auto => "auto".to_owned(),
        TimeoutSetting::Fixed(d) => format_duration(*d),
    }
}

/// The line of a setting.
pub open spec fn value_line(key: Seq<char>, value: Seq<char>, source: Seq<char>) -> Seq<char> {
    key + ": "@ + value + " ["@ + source + "]"@
}

/// The line of a setting that may be missing.
pub open spec fn optional_line(key: Seq<char>, value: Option<Seq<char>>, source: Seq<char>) -> Seq<
    char,
> {
    match value {
        Some(v) => value_line(key, v, source),
        None => key + ": (unset)"@,
    }
}

/// A line, or what is wrong with a setting.
pub type Entry = core::result::Result<Seq<char>, Failure>;

/// The line of a timeout.
pub open spec fn timeout_entry(
    key: Seq<char>,
    cli: Option<Seq<char>>,
    configured: Option<Seq<char>>,
    source: Seq<char>,
) -> Entry {
    match cli {
        Some(s) => match parsed_timeout(s) {
            Ok(t) => Ok(value_line(key, timeout_text(t), "cli"@)),
            Err(f) => Err(f),
        },
        None => match configured {
            Some(s) => match parsed_timeout(s) {
                Ok(t) => Ok(value_line(key, trimmed(s), source)),
                Err(f) => Err(f),
            },
            None => Ok(value_line(key, "disabled"@, "default"@)),
        },
    }
}

/// The line of how long a test may stay silent.
pub open spec fn silence_entry(
    key: Seq<char>,
    cli: Option<Seq<char>>,
    configured: Option<Seq<char>>,
    source: Seq<char>,
) -> Entry {
    match cli {
        Some(s) => if says_disabled(s) {
            Ok(value_line(key, "disabled"@, "cli"@))
        } else {
            match parsed_duration(trimmed(s)) {
                Ok(n) => Ok(value_line(key, span_text(n), "cli"@)),
                Err(f) => Err(f),
            }
        },
        None => match configured {
            Some(s) => if says_disabled(s) {
                Ok(value_line(key, "disabled"@, source))
            } else {
                match parsed_duration(trimmed(s)) {
                    Ok(n) => Ok(value_line(key, trimmed(s), source)),
                    Err(f) => Err(f),
                }
            },
            None => Ok(value_line(key, "disabled"@, "default"@)),
        },
    }
}

/// The line of the order of tests.
pub open spec fn order_entry(
    key: Seq<char>,
    cli: Option<Seq<char>>,
    configured: Option<Seq<char>>,
    source: Seq<char>,
) -> Entry {
    match cli {
        Some(s) => match parsed_order(s) {
            Ok(o) => Ok(value_line(key, order_text(o), "cli"@)),
            Err(f) => Err(f),
        },
        None => match configured {
            Some(s) => match parsed_order(s) {
                Ok(o) => Ok(value_line(key, order_text(o), source)),
                Err(f) => Err(f),
            },
            None => Ok(value_line(key, order_text(TestOrder::Discovery), "default"@)),
        },
    }
}

/// The line of the number of workers, on a machine with `cpus` processors.
pub open spec fn workers_line(cli: Option<usize>, cpus: nat) -> Seq<char> {
    match cli {
        Some(n) => if n == 0 {
            value_line("concurrency"@, decimal(cpus) + " (auto / cpu count)"@, "cli"@)
        } else {
            value_line("concurrency"@, decimal(n as nat), "cli"@)
        },
        None => value_line("concurrency"@, "1 (serial)"@, "default"@),
    }
}

/// Where a configured setting comes from.
pub open spec fn origin(key: Seq<char>, fields: Seq<Seq<char>>, active: Option<Seq<char>>) -> Seq<
    char,
> {
    if has_text(fields, key) {
        "profile:"@ + (match active {
            Some(name) => name,
            None => Seq::empty(),
        })
    } else {
        "config"@
    }
}

/// The lines of the settings in effect, or what is wrong with them, one by one.
pub open spec fn setting_entries(
    c: ConfigCommand,
    s: Seq<Option<Seq<char>>>,
    fields: Seq<Seq<char>>,
    active: Option<Seq<char>>,
    cpus: nat,
) -> Seq<Entry> {
    seq![
        Ok(
            optional_line(
                "test_command"@,
                if s[0] is Some && s[0]->0.len() > 0 {
                    s[0]
                } else {
                    None
                },
                origin("test_command"@, fields, active),
            ),
        ),
        Ok(optional_line("test_id_option"@, s[1], origin("test_id_option"@, fields, active))),
        Ok(optional_line("test_list_option"@, s[2], origin("test_list_option"@, fields, active))),
        Ok(
            optional_line(
                "test_id_list_default"@,
                s[3],
                origin("test_id_list_default"@, fields, active),
            ),
        ),
        Ok(
            optional_line(
                "test_run_concurrency"@,
                s[4],
                origin("test_run_concurrency"@, fields, active),
            ),
        ),
        Ok(optional_line("filter_tags"@, s[5], origin("filter_tags"@, fields, active))),
        Ok(optional_line("group_regex"@, s[6], origin("group_regex"@, fields, active))),
        Ok(
            optional_line(
                "instance_provision"@,
                s[10],
                origin("instance_provision"@, fields, active),
            ),
        ),
        Ok(optional_line("instance_execute"@, s[11], origin("instance_execute"@, fields, active))),
        Ok(optional_line("instance_dispose"@, s[12], origin("instance_dispose"@, fields, active))),
        timeout_entry(
            "test_timeout"@,
            optional_text(c.test_timeout),
            s[7],
            origin("test_timeout"@, fields, active),
        ),
        timeout_entry(
            "max_duration"@,
            optional_text(c.max_duration),
            s[8],
            origin("max_duration"@, fields, active),
        ),
        silence_entry(
            "no_output_timeout"@,
            optional_text(c.no_output_timeout),
            s[9],
            origin("no_output_timeout"@, fields, active),
        ),
        order_entry(
            "test_order"@,
            optional_text(c.order),
            s[13],
            origin("test_order"@, fields, active),
        ),
        Ok(workers_line(c.concurrency, cpus)),
    ]
}

/// A span is shown as a whole number of a unit: so many milliseconds where it has no whole second,
/// else so many hours, minutes or seconds as make up its whole seconds.
pub proof fn spans_are_shown_in_whole_units(nanos: nat)
    ensures
        exists|k: nat, unit: nat|
            #![trigger decimal(k), unit_word(unit)]
            span_text(nanos) == decimal(k) + unit_word(unit) && if nanos < 1_000_000_000 {
                unit == 0 && k == nanos / 1_000_000
            } else {
                (unit == 1 || unit == 60 || unit == 3600) && k * unit == nanos / 1_000_000_000
            },
{
    let secs = nanos / 1_000_000_000;
    let (k, unit): (nat, nat) = if secs == 0 {
        (nanos / 1_000_000, 0)
    } else if secs >= 3600 && secs % 3600 == 0 {
        (secs / 3600, 3600)
    } else if secs >= 60 && secs % 60 == 0 {
        (secs / 60, 60)
    } else {
        (secs, 1)
    };
    assert(span_text(nanos) == decimal(k) + unit_word(unit));
}

/// The letters of a unit of so many seconds; those of milliseconds for none.
pub open spec fn unit_word(seconds: nat) -> Seq<char> {
    if seconds == 0 {
        "ms"@
    } else if seconds == 1 {
        "s"@
    } else if seconds == 60 {
        "m"@
    } else {
        "h"@
    }
}

/// A setting that is given on the command line is shown whatever is configured, and told to come
/// from there. A configured one is told to come from where it is configured, and any other is the
/// default.
pub proof fn command_line_goes_before_configuration(
    key: Seq<char>,
    cli: Option<Seq<char>>,
    configured: Option<Seq<char>>,
    source: Seq<char>,
)
    ensures
        cli is Some ==> timeout_entry(key, cli, configured, source) == timeout_entry(
            key,
            cli,
            None,
            Seq::empty(),
        ) && silence_entry(key, cli, configured, source) == silence_entry(
            key,
            cli,
            None,
            Seq::empty(),
        ) && order_entry(key, cli, configured, source) == order_entry(
            key,
            cli,
            None,
            Seq::empty(),
        ),
        ({
            let from = if cli is Some {
                "cli"@
            } else if configured is Some {
                source
            } else {
                "default"@
            };
            &&& timeout_entry(key, cli, configured, source) matches Ok(line) ==> has_suffix(
                line,
                " ["@ + from + "]"@,
            ) && has_prefix(line, key + ": "@)
            &&& silence_entry(key, cli, configured, source) matches Ok(line) ==> has_suffix(
                line,
                " ["@ + from + "]"@,
            ) && has_prefix(line, key + ": "@)
            &&& order_entry(key, cli, configured, source) matches Ok(line) ==> has_suffix(
                line,
                " ["@ + from + "]"@,
            ) && has_prefix(line, key + ": "@)
        }),
{
    assert forall|value: Seq<char>, from: Seq<char>|
        has_suffix(#[trigger] value_line(key, value, from), " ["@ + from + "]"@) && has_prefix(
            value_line(key, value, from),
            key + ": "@,
        ) by {
        let line = value_line(key, value, from);
        let tail = " ["@ + from + "]"@;
        assert(line.skip(line.len() - tail.len()) =~= tail);
        assert(line.take((key + ": "@).len() as int) =~= key + ": "@);
    }
}

/// The lines before the first setting that something is wrong with, from position `from` on.
pub open spec fn lines_until(entries: Seq<Entry>, from: int) -> Seq<Seq<char>>
    decreases entries.len() - from,
{
    if 0 <= from < entries.len() && entries[from] is Ok {
        seq![entries[from]->Ok_0] + lines_until(entries, from + 1)
    } else {
        Seq::empty()
    }
}

/// What is wrong with the first setting that something is wrong with, from position `from` on.
pub open spec fn first_problem(entries: Seq<Entry>, from: int) -> Option<Failure>
    decreases entries.len() - from,
{
    if 0 <= from < entries.len() {
        match entries[from] {
            Ok(s) => first_problem(entries, from + 1),
            Err(f) => Some(f),
        }
    } else {
        None
    }
}

/// Lines that are said, and what is wrong where something is.
pub struct Shown {
    /// The lines.
    pub lines: Seq<Seq<char>>,
    /// What is wrong.
    pub problem: Option<Failure>,
}

/// The settings without a configuration.
pub open spec fn no_settings() -> Seq<Option<Seq<char>>> {
    Seq::new(
        14,
        |i: int|
            if i == 0 {
                Some(Seq::empty())
            } else {
                None
            },
    )
}

/// The name of a profile.
pub open spec fn profile_part(names: Seq<Seq<char>>) -> spec_fn(int) -> Seq<Seq<char>> {
    |i: int| seq!["  "@ + names[i]]
}

/// The line of the configuration file.
pub open spec fn file_line(loaded: Option<(ConfigFile, String)>) -> Seq<char> {
    match loaded {
        Some((c, path)) => "Config file: "@ + path@,
        None => "Config file: (none found)"@,
    }
}

/// The lines of the profiles.
pub open spec fn profile_lines(loaded: Option<(ConfigFile, String)>) -> Seq<Seq<char>> {
    seq![file_line(loaded)] + (match loaded {
        None => Seq::empty(),
        Some((c, path)) => {
            let names = profile_keys(c.profiles@);
            (if names.len() == 0 {
                seq!["No profiles defined"@]
            } else {
                seq!["Profiles:"@] + gathered(profile_part(names), names.len())
            }) + (match c.default_profile {
                Some(p) => seq!["default_profile: "@ + p@],
                None => Seq::empty(),
            })
        },
    })
}

/// What is shown of the settings.
pub open spec fn shown_settings(
    c: ConfigCommand,
    base: Seq<char>,
    loaded: Option<(ConfigFile, String)>,
    cpus: nat,
) -> Shown {
    let head = seq![file_line(loaded), "Working directory: "@ + base];
    match loaded {
        None => {
            let entries = setting_entries(c, no_settings(), Seq::empty(), None, cpus);
            Shown {
                lines: head + seq![""@] + lines_until(entries, 0),
                problem: first_problem(entries, 0),
            }
        },
        Some((f, path)) => match resolution(f, optional_text(c.profile)) {
            Err(e) => Shown { lines: head, problem: Some(e) },
            Ok((s, active)) => {
                let entries = setting_entries(c, s, profile_fields(f, active), active, cpus);
                Shown {
                    lines: head + (match active {
                        Some(name) => seq!["Active profile: "@ + name],
                        None => Seq::empty(),
                    }) + seq![""@] + lines_until(entries, 0),
                    problem: first_problem(entries, 0),
                }
            },
        },
    }
}

/// Where the project is.
pub open spec fn base_text(c: ConfigCommand) -> Seq<char> {
    match c.base_path {
        Some(p) => p@,
        None => "."@,
    }
}

/// Whether `loaded` is the configuration in the files of a directory; nothing where there is none
/// or something is wrong with it.
pub open spec fn is_loaded(
    base: Seq<char>,
    files: Seq<Named<core::result::Result<String, String>>>,
    loaded: Option<(ConfigFile, String)>,
) -> bool {
    match first_present(files, 0) {
        None => loaded is None,
        Some(i) => {
            let path = path_in(base, config_file_name(i));
            let contents = contents_text(entry_of(files, config_file_name(i)).value);
            match loaded {
                Some((f, p)) => p@ == path && is_load_outcome(path, contents, Ok(f)),
                None => exists|r: Result<ConfigFile>| #[trigger]
                    is_load_outcome(path, contents, r) && r is Err,
            }
        },
    }
}

/// What is shown.
pub open spec fn shown(
    c: ConfigCommand,
    loaded: Option<(ConfigFile, String)>,
    cpus: nat,
) -> Shown {
    if c.list_profiles {
        Shown { lines: profile_lines(loaded), problem: None }
    } else {
        shown_settings(c, base_text(c), loaded, cpus)
    }
}

/// The line of a setting.
fn render_value(key: &str, value: &str, source: &str) -> (s: String)
    ensures
        s@ == value_line(key@, value@, source@),
{
    cat6(key, ": ", value, " [", source, "]")
}

/// The line of a setting that may be missing.
fn render_optional(key: &str, value: &Option<String>, source: &str) -> (s: String)
    ensures
        s@ == optional_line(key@, optional_text(*value), source@),
{
    match value {
        Some(v) => render_value(key, v.as_str(), source),
        None => cat2(key, ": (unset)"),
    }
}

/// The line of a timeout.
fn render_timeout(
    key: &str,
    cli: &Option<String>,
    configured: &Option<String>,
    source: &str,
) -> (r: Result<String>)
    ensures
        outcome_view(r) == timeout_entry(key@, optional_text(*cli), optional_text(*configured), source@),
{
    match cli {
        Some(s) => match TimeoutSetting::parse(s.as_str()) {
            Ok(t) => Ok(render_value(key, format_timeout(&t).as_str(), "cli")),
            Err(e) => Err(e),
        },
        None => match configured {
            Some(s) => match TimeoutSetting::parse(s.as_str()) {
                Ok(_) => Ok(render_value(key, trim(s.as_str()).as_str(), source)),
                Err(e) => Err(e),
            },
            None => Ok(render_value(key, "disabled", "default")),
        },
    }
}

/// Whether a text says that there is no timeout.
fn is_disabled_text(s: &str) -> (r: bool)
    ensures
        r == says_disabled(s@),
{
    let t: String = trim(s);
    t.as_str().is_empty() || eq_ignore_ascii_case(t.as_str(), "disabled")
}

/// The line of how long a test may stay silent.
fn render_silence(
    key: &str,
    cli: &Option<String>,
    configured: &Option<String>,
    source: &str,
) -> (r: Result<String>)
    ensures
        outcome_view(r) == silence_entry(key@, optional_text(*cli), optional_text(*configured), source@),
{
    match cli {
        Some(s) => {
            if is_disabled_text(s.as_str()) {
                return Ok(render_value(key, "disabled", "cli"));
            }
            match parse_duration_string(trim(s.as_str()).as_str()) {
                Ok(d) => Ok(render_value(key, format_duration(d).as_str(), "cli")),
                Err(e) => Err(e),
            }
        },
        None => match configured {
            Some(s) => {
                if is_disabled_text(s.as_str()) {
                    return Ok(render_value(key, "disabled", source));
                }
                match parse_duration_string(trim(s.as_str()).as_str()) {
                    Ok(_) => Ok(render_value(key, trim(s.as_str()).as_str(), source)),
                    Err(e) => Err(e),
                }
            },
            None => Ok(render_value(key, "disabled", "default")),
        },
    }
}

/// The line of the order of tests.
fn render_order(
    key: &str,
    cli: &Option<String>,
    configured: &Option<String>,
    source: &str,
) -> (r: Result<String>)
    ensures
        outcome_view(r) == order_entry(key@, optional_text(*cli), optional_text(*configured), source@),
{
    match cli {
        Some(s) => match TestOrder::parse(s.as_str()) {
            Ok(o) => Ok(render_value(key, o.text().as_str(), "cli")),
            Err(e) => Err(e),
        },
        None => match configured {
            Some(s) => match TestOrder::parse(s.as_str()) {
                Ok(o) => Ok(render_value(key, o.text().as_str(), source)),
                Err(e) => Err(e),
            },
            None => Ok(
                render_value(key, TestOrder::Discovery.text().as_str(), "default"),
            ),
        },
    }
}

/// The line of the number of workers.
fn render_workers(cli: Option<usize>, cpus: usize) -> (s: String)
    ensures
        s@ == workers_line(cli, cpus as nat),
{
    match cli {
        Some(n) => if n == 0 {
            let value: String = cat2(count_text(cpus).as_str(), " (auto / cpu count)");
            render_value("concurrency", value.as_str(), "cli")
        } else {
            render_value("concurrency", count_text(n).as_str(), "cli")
        },
        None => render_value("concurrency", "1 (serial)", "default"),
    }
}

/// Where a configured setting comes from.
fn find_origin(key: &str, fields: &Vec<String>, active: &Option<String>) -> (s: String)
    ensures
        s@ == origin(key@, texts(fields@), optional_text(*active)),
{
    let source: Source = if contains_text(fields, key) {
        match active {
            Some(name) => Source::Profile(name.clone()),
            None => Source::Profile(String::new()),
        }
    } else {
        Source::Config
    };
    source.label()
}

/// Lines, or what is wrong with settings.
pub open spec fn entries_of(v: Seq<Result<String>>) -> Seq<Entry> {
    Seq::new(v.len(), |i: int| outcome_view(v[i]))
}

/// Says the lines before the first setting that something is wrong with.
fn say_entries(v: &Vec<Result<String>>, ui: &mut Transcript) -> (r: Result<i32>)
    ensures
        final(ui)@ == old(ui)@ + outputs(lines_until(entries_of(v@), 0)),
        match first_problem(entries_of(v@), 0) {
            Some(f) => r matches Err(e) && e@ == f,
            None => r == Ok::<i32, Error>(0),
        },
{
    let ghost all = entries_of(v@);
    let ghost whole = lines_until(all, 0);
    for i in 0..v.len()
        invariant
            all == entries_of(v@),
            first_problem(all, 0) == first_problem(all, i as int),
            ui@ + outputs(lines_until(all, i as int)) == old(ui)@ + outputs(lines_until(all, 0)),
    {
        match &v[i] {
            Ok(s) => {
                let ghost said = ui@;
                ui.output(s.as_str());
                proof {
                    assert(all[i as int] == Ok::<Seq<char>, Failure>(s@));
                    let rest = lines_until(all, i + 1);
                    assert(lines_until(all, i as int) == seq![s@] + rest);
                    assert(ui@ + outputs(rest) =~= said + outputs(seq![s@] + rest));
                }
            },
            Err(e) => {
                assert(all[i as int] == Err::<Seq<char>, Failure>(e@));
                assert(ui@ + outputs(Seq::empty()) =~= ui@);
                return Err(e.copy());
            },
        }
    }
    assert(ui@ + outputs(Seq::empty()) =~= ui@);
    Ok(0)
}

impl ConfigCommand {
    /// A command that sets nothing but the path.
    pub fn new(base_path: Option<String>) -> (r: Self)
        ensures
            r == (ConfigCommand {
                base_path,
                test_timeout: None,
                max_duration: None,
                no_output_timeout: None,
                order: None,
                concurrency: None,
                profile: None,
                list_profiles: false,
            }),
    {
        ConfigCommand {
            base_path,
            test_timeout: None,
            max_duration: None,
            no_output_timeout: None,
            order: None,
            concurrency: None,
            profile: None,
            list_profiles: false,
        }
    }

    /// The lines of the settings in effect, or what is wrong with them.
    fn render_settings(
        &self,
        c: &TestrConfig,
        fields: &Vec<String>,
        active: &Option<String>,
        cpus: usize,
    ) -> (r: Vec<Result<String>>)
        ensures
            entries_of(r@) == setting_entries(
                *self,
                c@,
                texts(fields@),
                optional_text(*active),
                cpus as nat,
            ),
    {
        let command: Option<String> = if c.test_command.as_str().is_empty() {
            None
        } else {
            Some(c.test_command.clone())
        };
        let mut v: Vec<Result<String>> = Vec::new();
        let o: String = find_origin("test_command", fields, active);
        v.push(Ok(render_optional("test_command", &command, o.as_str())));
        let o: String = find_origin("test_id_option", fields, active);
        v.push(Ok(render_optional("test_id_option", &c.test_id_option, o.as_str())));
        let o: String = find_origin("test_list_option", fields, active);
        v.push(Ok(render_optional("test_list_option", &c.test_list_option, o.as_str())));
        let o: String = find_origin("test_id_list_default", fields, active);
        v.push(Ok(render_optional("test_id_list_default", &c.test_id_list_default, o.as_str())));
        let o: String = find_origin("test_run_concurrency", fields, active);
        v.push(Ok(render_optional("test_run_concurrency", &c.test_run_concurrency, o.as_str())));
        let o: String = find_origin("filter_tags", fields, active);
        v.push(Ok(render_optional("filter_tags", &c.filter_tags, o.as_str())));
        let o: String = find_origin("group_regex", fields, active);
        v.push(Ok(render_optional("group_regex", &c.group_regex, o.as_str())));
        let o: String = find_origin("instance_provision", fields, active);
        v.push(Ok(render_optional("instance_provision", &c.instance_provision, o.as_str())));
        let o: String = find_origin("instance_execute", fields, active);
        v.push(Ok(render_optional("instance_execute", &c.instance_execute, o.as_str())));
        let o: String = find_origin("instance_dispose", fields, active);
        v.push(Ok(render_optional("instance_dispose", &c.instance_dispose, o.as_str())));
        let o: String = find_origin("test_timeout", fields, active);
        v.push(render_timeout("test_timeout", &self.test_timeout, &c.test_timeout, o.as_str()));
        let o: String = find_origin("max_duration", fields, active);
        v.push(render_timeout("max_duration", &self.max_duration, &c.max_duration, o.as_str()));
        let o: String = find_origin("no_output_timeout", fields, active);
        v.push(
            render_silence(
                "no_output_timeout",
                &self.no_output_timeout,
                &c.no_output_timeout,
                o.as_str(),
            ),
        );
        let o: String = find_origin("test_order", fields, active);
        v.push(render_order("test_order", &self.order, &c.test_order, o.as_str()));
        v.push(Ok(render_workers(self.concurrency, cpus)));
        assert(entries_of(v@) =~= setting_entries(
            *self,
            c@,
            texts(fields@),
            optional_text(*active),
            cpus as nat,
        ));
        v
    }

    /// Lists the profiles.
    fn show_profiles(&self, loaded: &Option<(ConfigFile, String)>, ui: &mut Transcript)
        ensures
            final(ui)@ == old(ui)@ + outputs(profile_lines(*loaded)),
    {
        let mut out: Vec<String> = Vec::new();
        match loaded {
            None => {
                out.push("Config file: (none found)".to_owned());
            },
            Some(l) => {
                out.push(cat2("Config file: ", l.1.as_str()));
                let names: Vec<String> = l.0.profile_names();
                let ghost all = profile_keys(l.0.profiles@);
                assert(names@.len() == all.len());
                if names.len() == 0 {
                    out.push("No profiles defined".to_owned());
                } else {
                    out.push("Profiles:".to_owned());
                    let ghost head = texts(out@);
                    for i in 0..names.len()
                        invariant
                            all == texts(names@),
                            texts(out@) =~= head + gathered(profile_part(all), i as nat),
                    {
                        out.push(cat2("  ", names[i].as_str()));
                    }
                }
                if let Some(p) = &l.0.default_profile {
                    out.push(cat2("default_profile: ", p.as_str()));
                }
            },
        }
        assert(texts(out@) =~= profile_lines(*loaded));
        ui.output_all(&out);
    }

    /// Shows the settings in effect with a configuration, where there is one, on a machine with
    /// `cpus` processors.
    pub fn execute_on(
        &self,
        loaded: &Option<(ConfigFile, String)>,
        cpus: usize,
        ui: &mut Transcript,
    ) -> (r: Result<i32>)
        ensures
            ({
                let s = shown(*self, *loaded, cpus as nat);
                &&& final(ui)@ == old(ui)@ + outputs(s.lines)
                &&& match s.problem {
                    Some(f) => r matches Err(e) && e@ == f,
                    None => r == Ok::<i32, Error>(0),
                }
            }),
    {
        if self.list_profiles {
            self.show_profiles(loaded, ui);
            return Ok(0);
        }
        let base: &str = match &self.base_path {
            Some(p) => p.as_str(),
            None => ".",
        };
        let first: String = match loaded {
            Some(l) => cat2("Config file: ", l.1.as_str()),
            None => "Config file: (none found)".to_owned(),
        };
        ui.output(first.as_str());
        let second: String = cat2("Working directory: ", base);
        ui.output(second.as_str());
        let ghost mut head = seq![first@, second@];
        assert(ui@ =~= old(ui)@ + outputs(head));
        let entries: Vec<Result<String>>;
        match loaded {
            None => {
                let none: Vec<String> = Vec::new();
                let c: TestrConfig = TestrConfig::default();
                entries = self.render_settings(&c, &none, &None, cpus);
                proof {
                    assert(texts(none@) =~= Seq::<Seq<char>>::empty());
                    assert(c@ =~= no_settings());
                }
            },
            Some(l) => {
                let selected: Option<&str> = match &self.profile {
                    Some(p) => Some(p.as_str()),
                    None => None,
                };
                match l.0.resolve(selected) {
                    Err(e) => {
                        return Err(e);
                    },
                    Ok(found) => {
                        let (c, active): (TestrConfig, Option<String>) = found;
                        let name: Option<&str> = match &active {
                            Some(p) => Some(p.as_str()),
                            None => None,
                        };
                        let fields: Vec<String> = l.0.fields_from_profile(name);
                        if let Some(p) = &active {
                            let line: String = cat2("Active profile: ", p.as_str());
                            ui.output(line.as_str());
                            proof {
                                head = head.push(line@);
                                assert(ui@ =~= old(ui)@ + outputs(head));
                            }
                        }
                        entries = self.render_settings(&c, &fields, &active, cpus);
                    },
                }
            },
        }
        ui.output("");
        let ghost said = ui@;
        proof {
            assert(said =~= old(ui)@ + outputs(head + seq![""@]));
        }
        let r: Result<i32> = say_entries(&entries, ui);
        proof {
            let rest = lines_until(entries_of(entries@), 0);
            assert(ui@ =~= old(ui)@ + outputs(head + seq![""@] + rest));
            assert(shown(*self, *loaded, cpus as nat).lines =~= head + seq![""@] + rest);
        }
        r
    }

    /// Shows the settings in effect with the configuration files of a directory.
    pub fn execute(
        &self,
        files: &TextMap<core::result::Result<String, String>>,
        ui: &mut Transcript,
    ) -> (r: Result<i32>)
        ensures
            exists|loaded: Option<(ConfigFile, String)>, cpus: nat|
                {
                    let s = #[trigger] shown(*self, loaded, cpus);
                    &&& is_loaded(base_text(*self), files@, loaded)
                    &&& final(ui)@ == old(ui)@ + outputs(s.lines)
                    &&& match s.problem {
                        Some(f) => r matches Err(e) && e@ == f,
                        None => r == Ok::<i32, Error>(0),
                    }
                },
    {
        let base: &str = match &self.base_path {
            Some(p) => p.as_str(),
            None => ".",
        };
        let loaded: Option<(ConfigFile, String)> = match ConfigFile::find_in_directory(
            base,
            files,
        ) {
            Ok(l) => {
                assert(is_loaded(base@, files@, Some(l)));
                Some(l)
            },
            Err(e) => {
                proof {
                    if let Some(i) = first_present(files@, 0) {
                        let path = path_in(base@, config_file_name(i));
                        let contents = contents_text(entry_of(files@, config_file_name(i)).value);
                        assert(is_load_outcome(path, contents, Err(e)));
                    }
                    assert(is_loaded(base@, files@, None));
                }
                None
            },
        };
        let cpus: usize = cpu_count();
        let r: Result<i32> = self.execute_on(&loaded, cpus, ui);
        assert(ui@ == old(ui)@ + outputs(shown(*self, loaded, cpus as nat).lines));
        r
    }
}

impl Command for ConfigCommand {
    fn name(&self) -> (r: &str)
        ensures
            r@ == "config"@,
    {
        "config"
    }

    fn help(&self) -> (r: &str)
        ensures
            r@
                == "Show the resolved effective configuration (config file + CLI flags + defaults)"@,
    {
        "Show the resolved effective configuration (config file + CLI flags + defaults)"
    }
}

} // verus!
