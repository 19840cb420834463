//! One layer of settings.

use vstd::prelude::*;
use vstd::string::*;

use crate::config::timeout::{is_disabled, parse_duration_string, parsed_duration, parsed_timeout, says_disabled, TimeoutSetting};
use crate::document::{find_value, find_variable, ini_variables, items, lookup, table, tree, TomlTree, TomlValue};
use crate::error::{failure_text, Error, Failure, Result};
use crate::ordering::{parsed_order, TestOrder};
use crate::pattern::{regex_error, Regexp};
use crate::repository::copy_text;
use crate::text::compose::{cat3, cat5, concat_assoc};
use crate::text::scan::{has_prefix, strip_prefix, trim, trimmed};

verus! {

broadcast use crate::text::compose::concat_assoc;

/// The text of an optional string.
pub open spec fn optional_text(s: Option<String>) -> Option<Seq<char>> {
    match s {
        Some(t) => Some(t@),
        None => None,
    }
}

/// How many settings a layer has.
pub const FIELD_COUNT: usize = 14;

/// The name of each setting.
pub open spec fn field_name(i: int) -> Seq<char> {
    if i == 0 {
        "test_command"@
    } else if i == 1 {
        "test_id_option"@
    } else if i == 2 {
        "test_list_option"@
    } else if i == 3 {
        "test_id_list_default"@
    } else if i == 4 {
        "test_run_concurrency"@
    } else if i == 5 {
        "filter_tags"@
    } else if i == 6 {
        "group_regex"@
    } else if i == 7 {
        "test_timeout"@
    } else if i == 8 {
        "max_duration"@
    } else if i == 9 {
        "no_output_timeout"@
    } else if i == 10 {
        "instance_provision"@
    } else if i == 11 {
        "instance_execute"@
    } else if i == 12 {
        "instance_dispose"@
    } else {
        "test_order"@
    }
}

/// The name of a setting.
pub(crate) fn field_label(i: usize) -> (r: &'static str)
    requires
        i < FIELD_COUNT,
    ensures
        r@ == field_name(i as int),
{
    match i {
        0 => "test_command",
        1 => "test_id_option",
        2 => "test_list_option",
        3 => "test_id_list_default",
        4 => "test_run_concurrency",
        5 => "filter_tags",
        6 => "group_regex",
        7 => "test_timeout",
        8 => "max_duration",
        9 => "no_output_timeout",
        10 => "instance_provision",
        11 => "instance_execute",
        12 => "instance_dispose",
        _ => "test_order",
    }
}

/// Settings, each of which may be absent.
#[derive(Debug)]
pub struct ConfigLayer {
    /// The command that runs the tests.
    pub test_command: Option<String>,
    /// What stands for `$IDOPTION` where some tests are selected.
    pub test_id_option: Option<String>,
    /// The option that makes the command list its tests.
    pub test_list_option: Option<String>,
    /// What stands for `$IDLIST` where no tests are selected.
    pub test_id_list_default: Option<String>,
    /// A command that tells how many workers to use.
    pub test_run_concurrency: Option<String>,
    /// Labels by which tests are counted.
    pub filter_tags: Option<String>,
    /// The part of a test name that makes up its group.
    pub group_regex: Option<String>,
    /// The timeout of each test.
    pub test_timeout: Option<String>,
    /// The timeout of the whole run.
    pub max_duration: Option<String>,
    /// How long a test may stay silent.
    pub no_output_timeout: Option<String>,
    /// A command that provides test environments.
    pub instance_provision: Option<String>,
    /// A command that runs something in a test environment.
    pub instance_execute: Option<String>,
    /// A command that gives test environments back.
    pub instance_dispose: Option<String>,
    /// The order of the tests.
    pub test_order: Option<String>,
}

/// The settings of a layer by number.
pub open spec fn layer_fields(l: ConfigLayer) -> Seq<Option<Seq<char>>> {
    seq![
        optional_text(l.test_command),
        optional_text(l.test_id_option),
        optional_text(l.test_list_option),
        optional_text(l.test_id_list_default),
        optional_text(l.test_run_concurrency),
        optional_text(l.filter_tags),
        optional_text(l.group_regex),
        optional_text(l.test_timeout),
        optional_text(l.max_duration),
        optional_text(l.no_output_timeout),
        optional_text(l.instance_provision),
        optional_text(l.instance_execute),
        optional_text(l.instance_dispose),
        optional_text(l.test_order),
    ]
}

impl View for ConfigLayer {
    type V = Seq<Option<Seq<char>>>;

    open spec fn view(&self) -> Seq<Option<Seq<char>>> {
        layer_fields(*self)
    }
}

/// `upper` on top of `lower`: what `upper` sets, and else what `lower` sets.
pub open spec fn overlaid(lower: Seq<Option<Seq<char>>>, upper: Seq<Option<Seq<char>>>) -> Seq<
    Option<Seq<char>>,
> {
    Seq::new(
        14,
        |i: int|
            if upper[i] is Some {
                upper[i]
            } else {
                lower[i]
            },
    )
}

/// The text that describes a failure, without what it says of its kind.
pub open spec fn plain_text(f: Failure) -> Seq<char> {
    let t = failure_text(f);
    let prefix = "Configuration error: "@;
    if has_prefix(t, prefix) {
        t.skip(prefix.len() as int)
    } else {
        t
    }
}

/// The text of the error, without what it says of its kind.
pub(crate) fn prefix_strip(e: &Error) -> (r: String)
    ensures
        r@ == plain_text(e@),
{
    let s: String = e.message();
    match strip_prefix(s.as_str(), "Configuration error: ") {
        Some(t) => t,
        None => s,
    }
}

/// What is wrong with a pattern for groups.
pub open spec fn group_regex_problem(value: Option<Seq<char>>, context: Seq<char>) -> Option<
    Seq<char>,
> {
    match value {
        Some(p) => match regex_error(p) {
            Some(e) => Some(context + ": invalid group_regex pattern '"@ + p + "': "@ + e),
            None => None,
        },
        None => None,
    }
}

/// What is wrong with an order of tests.
pub open spec fn order_problem(value: Option<Seq<char>>, context: Seq<char>) -> Option<Seq<char>> {
    match value {
        Some(s) => match parsed_order(s) {
            Err(f) => Some(context + ": "@ + plain_text(f)),
            Ok(_) => None,
        },
        None => None,
    }
}

/// What is wrong with a timeout.
pub open spec fn timeout_problem(
    value: Option<Seq<char>>,
    context: Seq<char>,
    name: Seq<char>,
) -> Option<Seq<char>> {
    match value {
        Some(s) => match parsed_timeout(s) {
            Err(f) => Some(context + ": "@ + name + ": "@ + plain_text(f)),
            Ok(_) => None,
        },
        None => None,
    }
}

/// What is wrong with a limit on silence.
pub open spec fn silence_problem(value: Option<Seq<char>>, context: Seq<char>) -> Option<
    Seq<char>,
> {
    match value {
        Some(s) => if says_disabled(s) {
            None
        } else {
            match parsed_duration(trimmed(s)) {
                Err(f) => Some(context + ": no_output_timeout: "@ + plain_text(f)),
                Ok(_) => None,
            }
        },
        None => None,
    }
}

/// The first thing that is wrong with the settings of a layer, each taken by itself.
pub open spec fn layer_problem(fields: Seq<Option<Seq<char>>>, context: Seq<char>) -> Option<
    Seq<char>,
> {
    if group_regex_problem(fields[6], context) is Some {
        group_regex_problem(fields[6], context)
    } else if order_problem(fields[13], context) is Some {
        order_problem(fields[13], context)
    } else if timeout_problem(fields[7], context, "test_timeout"@) is Some {
        timeout_problem(fields[7], context, "test_timeout"@)
    } else if timeout_problem(fields[8], context, "max_duration"@) is Some {
        timeout_problem(fields[8], context, "max_duration"@)
    } else {
        silence_problem(fields[9], context)
    }
}

/// The text of a value that is a string.
pub open spec fn text_of(t: TomlTree) -> Option<Seq<char>> {
    match t {
        TomlTree::Text(_, s) => Some(s),
        _ => None,
    }
}

/// The string that a table of a TOML document holds under a key.
pub open spec fn toml_text(t: Seq<(Seq<char>, TomlTree)>, key: Seq<char>) -> Option<Seq<char>> {
    match lookup(t, key) {
        Some(v) => text_of(v),
        None => None,
    }
}

/// The settings that a table holds.
pub open spec fn toml_layer(t: Seq<(Seq<char>, TomlTree)>) -> Seq<Option<Seq<char>>> {
    Seq::new(14, |i: int| toml_text(t, field_name(i)))
}

/// The settings that a list holds in their order.
pub open spec fn listed_layer(vs: Seq<TomlTree>) -> Seq<Option<Seq<char>>> {
    Seq::new(
        14,
        |i: int|
            if i < vs.len() {
                text_of(vs[i])
            } else {
                None
            },
    )
}

/// The settings of a profile. A date sets nothing.
pub open spec fn profile_layer(t: TomlTree) -> Seq<Option<Seq<char>>> {
    match t {
        TomlTree::Table(_, es) => toml_layer(es),
        TomlTree::List(_, vs) => listed_layer(vs),
        _ => Seq::new(14, |i: int| None),
    }
}

/// The settings that a section of an INI document holds.
pub open spec fn ini_layer(t: Seq<(Seq<char>, Seq<char>)>) -> Seq<Option<Seq<char>>> {
    Seq::new(14, |i: int| lookup(t, field_name(i)))
}

/// The text of a value that is a string.
fn copy_of_text(v: &TomlValue) -> (r: Option<String>)
    ensures
        optional_text(r) == text_of(tree(*v)),
{
    match v {
        TomlValue::Text(_, s) => Some(s.clone()),
        _ => None,
    }
}

/// The string under a key.
pub(crate) fn string_under(es: &Vec<(String, TomlValue)>, key: &str) -> (r: Option<String>)
    ensures
        optional_text(r) == toml_text(table(es@), key@),
{
    match find_value(es, key) {
        None => None,
        Some(v) => copy_of_text(v),
    }
}

impl ConfigLayer {
    /// A layer that sets nothing.
    pub fn empty() -> (r: ConfigLayer)
        ensures
            r@ == Seq::new(14, |i: int| None::<Seq<char>>),
    {
        let r = ConfigLayer {
            test_command: None,
            test_id_option: None,
            test_list_option: None,
            test_id_list_default: None,
            test_run_concurrency: None,
            filter_tags: None,
            group_regex: None,
            test_timeout: None,
            max_duration: None,
            no_output_timeout: None,
            instance_provision: None,
            instance_execute: None,
            instance_dispose: None,
            test_order: None,
        };
        assert(r@ =~= Seq::new(14, |i: int| None::<Seq<char>>));
        r
    }

    /// The layer whose settings are listed.
    fn from_fields(v: &Vec<Option<String>>) -> (r: ConfigLayer)
        requires
            v@.len() == 14,
        ensures
            r@ == Seq::new(14, |i: int| optional_text(v@[i])),
    {
        let r = ConfigLayer {
            test_command: copy_text(&v[0]),
            test_id_option: copy_text(&v[1]),
            test_list_option: copy_text(&v[2]),
            test_id_list_default: copy_text(&v[3]),
            test_run_concurrency: copy_text(&v[4]),
            filter_tags: copy_text(&v[5]),
            group_regex: copy_text(&v[6]),
            test_timeout: copy_text(&v[7]),
            max_duration: copy_text(&v[8]),
            no_output_timeout: copy_text(&v[9]),
            instance_provision: copy_text(&v[10]),
            instance_execute: copy_text(&v[11]),
            instance_dispose: copy_text(&v[12]),
            test_order: copy_text(&v[13]),
        };
        assert(r@ =~= Seq::new(14, |i: int| optional_text(v@[i])));
        r
    }

    /// The setting of a number.
    pub(crate) fn field(&self, i: usize) -> (r: &Option<String>)
        requires
            i < FIELD_COUNT,
        ensures
            optional_text(*r) == self@[i as int],
    {
        match i {
            0 => &self.test_command,
            1 => &self.test_id_option,
            2 => &self.test_list_option,
            3 => &self.test_id_list_default,
            4 => &self.test_run_concurrency,
            5 => &self.filter_tags,
            6 => &self.group_regex,
            7 => &self.test_timeout,
            8 => &self.max_duration,
            9 => &self.no_output_timeout,
            10 => &self.instance_provision,
            11 => &self.instance_execute,
            12 => &self.instance_dispose,
            _ => &self.test_order,
        }
    }

    /// The same settings once more.
    pub fn copy(&self) -> (r: ConfigLayer)
        ensures
            r == *self,
    {
        ConfigLayer {
            test_command: copy_text(&self.test_command),
            test_id_option: copy_text(&self.test_id_option),
            test_list_option: copy_text(&self.test_list_option),
            test_id_list_default: copy_text(&self.test_id_list_default),
            test_run_concurrency: copy_text(&self.test_run_concurrency),
            filter_tags: copy_text(&self.filter_tags),
            group_regex: copy_text(&self.group_regex),
            test_timeout: copy_text(&self.test_timeout),
            max_duration: copy_text(&self.max_duration),
            no_output_timeout: copy_text(&self.no_output_timeout),
            instance_provision: copy_text(&self.instance_provision),
            instance_execute: copy_text(&self.instance_execute),
            instance_dispose: copy_text(&self.instance_dispose),
            test_order: copy_text(&self.test_order),
        }
    }

    /// The settings that a table of a TOML document holds. What is no setting and no string is
    /// passed over.
    pub fn from_toml(es: &Vec<(String, TomlValue)>) -> (r: ConfigLayer)
        ensures
            r@ == toml_layer(table(es@)),
    {
        let ghost t = table(es@);
        let mut v: Vec<Option<String>> = Vec::new();
        for i in 0..FIELD_COUNT
            invariant
                t == table(es@),
                v@.len() == i,
                forall|k: int|
                    0 <= k < i ==> toml_text(t, field_name(k)) == optional_text(#[trigger] v@[k]),
        {
            v.push(string_under(es, field_label(i)));
        }
        let r: ConfigLayer = ConfigLayer::from_fields(&v);
        assert(r@ =~= toml_layer(t));
        r
    }

    /// The settings that a list holds in their order.
    fn from_list(vs: &Vec<TomlValue>) -> (r: ConfigLayer)
        ensures
            r@ == listed_layer(items(vs@)),
    {
        let ghost t = items(vs@);
        let mut v: Vec<Option<String>> = Vec::new();
        for i in 0..FIELD_COUNT
            invariant
                t == items(vs@),
                v@.len() == i,
                forall|k: int|
                    0 <= k < i ==> listed_layer(t)[k] == optional_text(#[trigger] v@[k]),
        {
            let value: Option<String> = if i < vs.len() {
                copy_of_text(&vs[i])
            } else {
                None
            };
            v.push(value);
        }
        let r: ConfigLayer = ConfigLayer::from_fields(&v);
        assert(r@ =~= listed_layer(t));
        r
    }

    /// The settings of a profile.
    pub(crate) fn from_value(v: &TomlValue) -> (r: ConfigLayer)
        ensures
            r@ == profile_layer(tree(*v)),
    {
        match v {
            TomlValue::Table(_, es) => {
                assert(tree(*v)->Table_1 =~= table(es@));
                ConfigLayer::from_toml(es)
            },
            TomlValue::List(_, vs) => {
                assert(tree(*v)->List_1 =~= items(vs@));
                ConfigLayer::from_list(vs)
            },
            _ => {
                let r: ConfigLayer = ConfigLayer::empty();
                assert(r@ =~= profile_layer(tree(*v)));
                r
            },
        }
    }

    /// The settings that a section of an INI document holds.
    pub fn from_ini(es: &Vec<(String, String)>) -> (r: ConfigLayer)
        ensures
            r@ == ini_layer(ini_variables(es@)),
    {
        let ghost t = ini_variables(es@);
        let mut v: Vec<Option<String>> = Vec::new();
        for i in 0..FIELD_COUNT
            invariant
                t == ini_variables(es@),
                v@.len() == i,
                forall|k: int|
                    0 <= k < i ==> lookup(t, field_name(k)) == optional_text(#[trigger] v@[k]),
        {
            let value: Option<String> = match find_variable(es, field_label(i)) {
                Some(s) => Some(s.clone()),
                None => None,
            };
            v.push(value);
        }
        let r: ConfigLayer = ConfigLayer::from_fields(&v);
        assert(r@ =~= ini_layer(t));
        r
    }

    /// Puts `other` on top: what it sets takes the place of what this layer sets, an empty string
    /// too; what it does not set stays.
    pub fn overlay(&mut self, other: &ConfigLayer)
        ensures
            final(self)@ == overlaid(old(self)@, other@),
    {
        let ghost before = self@;
        let mut v: Vec<Option<String>> = Vec::new();
        for i in 0..FIELD_COUNT
            invariant
                self@ == before,
                v@.len() == i,
                forall|k: int|
                    0 <= k < i ==> overlaid(before, other@)[k] == optional_text(#[trigger] v@[k]),
        {
            let upper: &Option<String> = other.field(i);
            let value: Option<String> = if upper.is_some() {
                copy_text(upper)
            } else {
                copy_text(self.field(i))
            };
            v.push(value);
        }
        *self = ConfigLayer::from_fields(&v);
        assert(self@ =~= overlaid(before, other@));
    }

    /// Checks each setting by itself: the pattern compiles, the order is known, durations can be
    /// read. What settings ask of each other is left to the configuration they end up in.
    pub fn validate_syntax(&self, context: &str) -> (r: Result<()>)
        ensures
            match layer_problem(self@, context@) {
                Some(m) => r matches Err(e) && e@ == Failure::Config(m),
                None => r is Ok,
            },
    {
        if let Some(pattern) = &self.group_regex {
            if let Err(e) = Regexp::compile(pattern.as_str()) {
                return Err(
                    Error::Config(
                        cat5(
                            context,
                            ": invalid group_regex pattern '",
                            pattern.as_str(),
                            "': ",
                            e.as_str(),
                        ),
                    ),
                );
            }
        }
        if let Some(s) = &self.test_order {
            if let Err(e) = TestOrder::parse(s.as_str()) {
                return Err(Error::Config(cat3(context, ": ", prefix_strip(&e).as_str())));
            }
        }
        if let Some(s) = &self.test_timeout {
            if let Err(e) = TimeoutSetting::parse(s.as_str()) {
                return Err(
                    Error::Config(
                        cat5(context, ": ", "test_timeout", ": ", prefix_strip(&e).as_str()),
                    ),
                );
            }
        }
        if let Some(s) = &self.max_duration {
            if let Err(e) = TimeoutSetting::parse(s.as_str()) {
                return Err(
                    Error::Config(
                        cat5(context, ": ", "max_duration", ": ", prefix_strip(&e).as_str()),
                    ),
                );
            }
        }
        if let Some(s) = &self.no_output_timeout {
            if !is_disabled(s.as_str()) {
                if let Err(e) = parse_duration_string(trim(s.as_str()).as_str()) {
                    return Err(
                        Error::Config(
                            cat3(context, ": no_output_timeout: ", prefix_strip(&e).as_str()),
                        ),
                    );
                }
            }
        }
        Ok(())
    }
}

/// Nothing on top changes nothing.
pub proof fn overlay_of_nothing(lower: Seq<Option<Seq<char>>>)
    requires
        lower.len() == 14,
    ensures
        overlaid(lower, Seq::new(14, |i: int| None)) == lower,
{
    assert(overlaid(lower, Seq::new(14, |i: int| None)) =~= lower);
}

/// A layer on top of itself changes nothing.
pub proof fn overlay_is_idempotent(lower: Seq<Option<Seq<char>>>, upper: Seq<Option<Seq<char>>>)
    requires
        lower.len() == 14,
        upper.len() == 14,
    ensures
        overlaid(overlaid(lower, upper), upper) == overlaid(lower, upper),
{
    assert(overlaid(overlaid(lower, upper), upper) =~= overlaid(lower, upper));
}

/// Putting layers on top of each other can be grouped either way.
pub proof fn overlay_is_associative(
    a: Seq<Option<Seq<char>>>,
    b: Seq<Option<Seq<char>>>,
    c: Seq<Option<Seq<char>>>,
)
    requires
        a.len() == 14,
        b.len() == 14,
        c.len() == 14,
    ensures
        overlaid(overlaid(a, b), c) == overlaid(a, overlaid(b, c)),
{
    assert(overlaid(overlaid(a, b), c) =~= overlaid(a, overlaid(b, c)));
}

} // verus!
