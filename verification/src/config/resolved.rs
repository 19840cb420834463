//! A configuration after a profile has been applied.

use vstd::prelude::*;
use vstd::string::*;

use crate::collection::{Named, TextMap};
use crate::config::layer::{optional_text, ConfigLayer};
use crate::config::timeout::{is_disabled, optional_nanos, parse_duration_string, parsed_duration, parsed_timeout, says_disabled, Timeout, TimeoutSetting};
use crate::error::{outcome, outcome_view, Error, Failure, Result};
use crate::ordering::{parsed_order, TestOrder};
use crate::text::compose::{cat2, texts};
use crate::text::scan::{contains, occurs_in, replace, replaced, trim, trimmed, words, words_of};
use crate::time::Duration;

verus! {

/// The settings in effect.
#[derive(Debug)]
pub struct TestrConfig {
    /// The command that runs the tests.
    pub test_command: String,
    /// What stands for `$IDOPTION` where some tests are selected.
    pub test_id_option: Option<String>,
    /// The option that makes the command list its tests.
    pub test_list_option: Option<String>,
    /// What stands for `$IDLIST` where no tests are selected.
    pub test_id_list_default: Option<String>,
    /// A command that tells how many workers to use.
    pub test_run_concurrency: Option<String>,
    /// Labels by which tests are counted.
    pub filter_tags: Option<String>,
    /// The part of a test name that makes up its group.
    pub group_regex: Option<String>,
    /// The timeout of each test.
    pub test_timeout: Option<String>,
    /// The timeout of the whole run.
    pub max_duration: Option<String>,
    /// How long a test may stay silent.
    pub no_output_timeout: Option<String>,
    /// A command that provides test environments.
    pub instance_provision: Option<String>,
    /// A command that runs something in a test environment.
    pub instance_execute: Option<String>,
    /// A command that gives test environments back.
    pub instance_dispose: Option<String>,
    /// The order of the tests.
    pub test_order: Option<String>,
}

impl View for TestrConfig {
    type V = Seq<Option<Seq<char>>>;

    /// The settings by number, in the order of the fields of a layer.
    open spec fn view(&self) -> Seq<Option<Seq<char>>> {
        seq![
            Some(self.test_command@),
            optional_text(self.test_id_option),
            optional_text(self.test_list_option),
            optional_text(self.test_id_list_default),
            optional_text(self.test_run_concurrency),
            optional_text(self.filter_tags),
            optional_text(self.group_regex),
            optional_text(self.test_timeout),
            optional_text(self.max_duration),
            optional_text(self.no_output_timeout),
            optional_text(self.instance_provision),
            optional_text(self.instance_execute),
            optional_text(self.instance_dispose),
            optional_text(self.test_order),
        ]
    }
}

impl Default for TestrConfig {
    fn default() -> (r: TestrConfig)
        ensures
            r.test_command@ == Seq::<char>::empty(),
            forall|i: int| 1 <= i < 14 ==> r@[i] is None,
    {
        TestrConfig {
            test_command: String::new(),
            test_id_option: None,
            test_list_option: None,
            test_id_list_default: None,
            test_run_concurrency: None,
            filter_tags: None,
            group_regex: None,
            test_timeout: None,
            max_duration: None,
            no_output_timeout: None,
            instance_provision: None,
            instance_execute: None,
            instance_dispose: None,
            test_order: None,
        }
    }
}

/// The command of a list of settings; empty where there is none.
pub open spec fn command_of(fields: Seq<Option<Seq<char>>>) -> Seq<char> {
    match fields[0] {
        Some(c) => c,
        None => Seq::empty(),
    }
}

/// What is wrong with settings taken together.
pub open spec fn resolution_problem(fields: Seq<Option<Seq<char>>>) -> Option<Seq<char>> {
    let command = command_of(fields);
    if command.len() == 0 {
        Some("test_command cannot be empty"@)
    } else if occurs_in(command, "$IDOPTION"@) && fields[1] is None {
        Some("test_command uses $IDOPTION but test_id_option is not configured"@)
    } else if occurs_in(command, "$LISTOPT"@) && fields[2] is None {
        Some("test_command uses $LISTOPT but test_list_option is not configured"@)
    } else {
        None
    }
}

/// `cmd` with `$` and the name of each of the first `n` variables replaced by its value, one
/// variable after the other.
pub open spec fn substituted(cmd: Seq<char>, vars: Seq<Named<String>>, n: int) -> Seq<char>
    decreases n,
{
    if n <= 0 {
        cmd
    } else {
        replaced(substituted(cmd, vars, n - 1), "$"@ + vars[n - 1].name@, vars[n - 1].value@)
    }
}

/// Settings that can be used have a command, and an option for whatever the command leaves room for.
pub proof fn usable_settings_fit_the_command(fields: Seq<Option<Seq<char>>>)
    ensures
        resolution_problem(fields) is None <==> fields[0] is Some && fields[0]->0.len() > 0 && (
        occurs_in(fields[0]->0, "$IDOPTION"@) ==> fields[1] is Some) && (occurs_in(
            fields[0]->0,
            "$LISTOPT"@,
        ) ==> fields[2] is Some),
{
}

/// Putting in variables that a command does not name changes nothing.
pub proof fn unnamed_variables_change_nothing(cmd: Seq<char>, vars: Seq<Named<String>>, n: int)
    requires
        0 <= n <= vars.len(),
        forall|i: int| 0 <= i < n ==> !occurs_in(cmd, "$"@ + (#[trigger] vars[i]).name@),
    ensures
        substituted(cmd, vars, n) == cmd,
    decreases n,
{
    if n > 0 {
        unnamed_variables_change_nothing(cmd, vars, n - 1);
        reveal_strlit("$");
        nothing_replaced(cmd, "$"@ + vars[n - 1].name@, vars[n - 1].value@);
    }
}

proof fn nothing_replaced(s: Seq<char>, p: Seq<char>, r: Seq<char>)
    requires
        p.len() > 0,
        !occurs_in(s, p),
    ensures
        replaced(s, p, r) == s,
    decreases s.len(),
{
    if s.len() > 0 {
        if crate::text::scan::has_prefix(s, p) {
            assert(s.subrange(0, p.len() as int) =~= s.take(p.len() as int));
            assert(crate::text::scan::occurs_at(s, p, 0));
        }
        let t = s.drop_first();
        if occurs_in(t, p) {
            let i = choose|i: int| #[trigger] crate::text::scan::occurs_at(t, p, i);
            assert(s.subrange(i + 1, i + 1 + p.len()) =~= t.subrange(i, i + p.len()));
            assert(crate::text::scan::occurs_at(s, p, i + 1));
        }
        nothing_replaced(t, p, r);
        assert(seq![s[0]] + t =~= s);
    }
}

/// The limit on silence that a setting denotes.
pub open spec fn parsed_silence(value: Option<Seq<char>>) -> core::result::Result<
    Option<nat>,
    Failure,
> {
    match value {
        None => Ok(None),
        Some(s) => if says_disabled(s) {
            Ok(None)
        } else {
            match parsed_duration(trimmed(s)) {
                Ok(n) => Ok(Some(n)),
                Err(f) => Err(f),
            }
        },
    }
}

impl TestrConfig {
    /// The configuration made of a layer. The command must not be empty, and where it uses
    /// `$IDOPTION` or `$LISTOPT` the option must be set.
    pub fn from_resolved_layer(layer: ConfigLayer) -> (r: Result<TestrConfig>)
        ensures
            match resolution_problem(layer@) {
                Some(m) => r matches Err(e) && e@ == Failure::Config(m),
                None => r matches Ok(c) && c@ == layer@,
            },
    {
        let ghost fields = layer@;
        let test_command: String = match layer.test_command {
            Some(c) => c,
            None => String::new(),
        };
        if test_command.as_str().is_empty() {
            return Err(Error::Config("test_command cannot be empty".to_owned()));
        }
        if contains(test_command.as_str(), "$IDOPTION") && layer.test_id_option.is_none() {
            return Err(
                Error::Config(
                    "test_command uses $IDOPTION but test_id_option is not configured".to_owned(),
                ),
            );
        }
        if contains(test_command.as_str(), "$LISTOPT") && layer.test_list_option.is_none() {
            return Err(
                Error::Config(
                    "test_command uses $LISTOPT but test_list_option is not configured".to_owned(),
                ),
            );
        }
        let c = TestrConfig {
            test_command,
            test_id_option: layer.test_id_option,
            test_list_option: layer.test_list_option,
            test_id_list_default: layer.test_id_list_default,
            test_run_concurrency: layer.test_run_concurrency,
            filter_tags: layer.filter_tags,
            group_regex: layer.group_regex,
            test_timeout: layer.test_timeout,
            max_duration: layer.max_duration,
            no_output_timeout: layer.no_output_timeout,
            instance_provision: layer.instance_provision,
            instance_execute: layer.instance_execute,
            instance_dispose: layer.instance_dispose,
            test_order: layer.test_order,
        };
        assert(c@ =~= fields);
        Ok(c)
    }

    /// The order of the tests; as the command lists them where none is set.
    pub fn parsed_test_order(&self) -> (r: Result<TestOrder>)
        ensures
            outcome(r) == match optional_text(self.test_order) {
                Some(s) => parsed_order(s),
                None => Ok::<TestOrder, Failure>(TestOrder::Discovery),
            },
    {
        match &self.test_order {
            None => Ok(TestOrder::Discovery),
            Some(s) => TestOrder::parse(s.as_str()),
        }
    }

    /// The timeout of each test.
    pub fn parsed_test_timeout(&self) -> (r: Result<TimeoutSetting>)
        ensures
            outcome_view(r) == match optional_text(self.test_timeout) {
                Some(s) => parsed_timeout(s),
                None => Ok::<Timeout, Failure>(Timeout::Disabled),
            },
    {
        match &self.test_timeout {
            None => Ok(TimeoutSetting::Disabled),
            Some(s) => TimeoutSetting::parse(s.as_str()),
        }
    }

    /// The timeout of the whole run.
    pub fn parsed_max_duration(&self) -> (r: Result<TimeoutSetting>)
        ensures
            outcome_view(r) == match optional_text(self.max_duration) {
                Some(s) => parsed_timeout(s),
                None => Ok::<Timeout, Failure>(Timeout::Disabled),
            },
    {
        match &self.max_duration {
            None => Ok(TimeoutSetting::Disabled),
            Some(s) => TimeoutSetting::parse(s.as_str()),
        }
    }

    /// The labels to count tests by, separated by white space. A label that starts with `!`
    /// leaves tests out.
    pub fn parsed_filter_tags(&self) -> (r: Vec<String>)
        ensures
            texts(r@) == match optional_text(self.filter_tags) {
                Some(s) => words_of(s),
                None => Seq::<Seq<char>>::empty(),
            },
    {
        match &self.filter_tags {
            None => {
                let r: Vec<String> = Vec::new();
                assert(texts(r@) =~= Seq::<Seq<char>>::empty());
                r
            },
            Some(s) => words(s.as_str()),
        }
    }

    /// How long a test may stay silent.
    pub fn parsed_no_output_timeout(&self) -> (r: Result<Option<Duration>>)
        ensures
            match parsed_silence(optional_text(self.no_output_timeout)) {
                Ok(n) => r matches Ok(d) && optional_nanos(d) == n,
                Err(f) => r matches Err(e) && e@ == f,
            },
    {
        match &self.no_output_timeout {
            None => Ok(None),
            Some(s) => {
                if is_disabled(s.as_str()) {
                    Ok(None)
                } else {
                    match parse_duration_string(trim(s.as_str()).as_str()) {
                        Ok(d) => Ok(Some(d)),
                        Err(e) => Err(e),
                    }
                }
            },
        }
    }

    /// Puts the values of variables into a command, in the order of the variables' names.
    pub fn substitute_variables(&self, cmd: &str, vars: &TextMap<String>) -> (r: String)
        ensures
            r@ == substituted(cmd@, vars@, vars@.len() as int),
    {
        let entries: &Vec<Named<String>> = vars.entries();
        let mut result: String = cmd.to_owned();
        proof {
            reveal_strlit("$");
        }
        for i in 0..entries.len()
            invariant
                entries@ == vars@,
                "$"@.len() == 1,
                result@ == substituted(cmd@, vars@, i as int),
        {
            let placeholder: String = cat2("$", entries[i].name.as_str());
            result = replace(result.as_str(), placeholder.as_str(), entries[i].value.as_str());
        }
        result
    }
}

} // verus!
