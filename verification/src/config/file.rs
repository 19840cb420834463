//! A configuration file: a base layer and named profiles.

use vstd::prelude::*;
use vstd::string::*;

use crate::collection::{entry_of, has_key, keys_ascend, with_entry_laws, KeyedList, Named, TextMap};
use crate::config::layer::{field_label, field_name, ini_layer, layer_problem, optional_text, overlaid, profile_layer, string_under, text_of, toml_layer, toml_text, ConfigLayer, FIELD_COUNT};
use crate::config::resolved::{resolution_problem, TestrConfig};
use crate::config::shape::{base_part, check_document, document_problem, entry_part, is_field, nothing_found};
use crate::document::{find_section, find_value, ini_document, ini_sections, is_text_table, keys_differ, lookup, lookup_is, parse_toml_document, read_ini, table, text_pairs, toml_document, toml_written, tree, write_toml, IniSection, Place, TomlTree, TomlValue};
use crate::error::{Error, Failure, Result};
use crate::repository::copy_text;
use crate::text::compose::{cat2, cat3, cat4, chars, join, joined, texts};
use crate::text::order::text_eq;
use crate::text::scan::{contains_text, ends_with, has_suffix, has_text, is_space, is_space_char};

verus! {

broadcast use crate::text::compose::texts_push;

/// The name that stands for the base layer.
pub const DEFAULT_PROFILE_NAME: &'static str = "default";

/// The variable of the environment that selects a profile.
pub const PROFILE_ENV_VAR: &'static str = "INQ_PROFILE";

/// The variable of the environment that switches progress bars off.
pub const NO_PROGRESS_ENV_VAR: &'static str = "INQ_NO_PROGRESS";

/// Whether a value of the variable that switches progress bars off does so: one that is neither
/// empty nor `0`.
pub fn progress_disabled_for(value: Option<&str>) -> (r: bool)
    ensures
        r == (value matches Some(v) && v@.len() > 0 && v@ != "0"@),
{
    match value {
        Some(v) => !v.is_empty() && !text_eq(v, "0"),
        None => false,
    }
}

/// A configuration file as it was read.
#[derive(Debug)]
pub struct ConfigFile {
    /// The settings at the top level.
    pub base: ConfigLayer,
    /// The profile that applies where none is selected.
    pub default_profile: Option<String>,
    /// The profiles by name.
    pub profiles: TextMap<ConfigLayer>,
}

/// The names of profiles.
pub open spec fn profile_keys(profiles: Seq<Named<ConfigLayer>>) -> Seq<Seq<char>> {
    Seq::new(profiles.len(), |i: int| profiles[i].name@)
}

/// What is said of the profiles that there are.
pub open spec fn available_text(profiles: Seq<Named<ConfigLayer>>) -> Seq<char> {
    if profiles.len() == 0 {
        "no profiles are defined"@
    } else {
        "available profiles: "@ + joined(profile_keys(profiles), ", "@)
    }
}

/// Whether a name holds a character that names of profiles must not hold.
pub open spec fn has_forbidden(name: Seq<char>) -> bool {
    exists|i: int|
        0 <= i < name.len() && (#[trigger] name[i] == '.' || name[i] == '/' || is_space(name[i]))
}

/// What is wrong with the name of a profile.
pub open spec fn profile_name_problem(name: Seq<char>) -> Option<Seq<char>> {
    if name == "default"@ {
        Some("[profiles.default] is reserved; the top-level table is the implicit default"@)
    } else if name.len() == 0 {
        Some("profile name must not be empty"@)
    } else if name[0] == '_' {
        Some("invalid profile name '"@ + name + "': must not start with '_'"@)
    } else if has_forbidden(name) {
        Some(
            "invalid profile name '"@ + name + "': must not contain '.', '/', or whitespace"@,
        )
    } else {
        None
    }
}

/// What is wrong with a profile.
pub open spec fn profile_problem(p: Named<ConfigLayer>) -> Option<Seq<char>> {
    match profile_name_problem(p.name@) {
        Some(m) => Some(m),
        None => layer_problem(p.value@, "profile '"@ + p.name@ + "'"@),
    }
}

/// What is wrong with the first of the profiles that something is wrong with.
pub open spec fn profiles_problem(profiles: Seq<Named<ConfigLayer>>) -> Option<Seq<char>>
    decreases profiles.len(),
{
    if profiles.len() == 0 {
        None
    } else {
        match profiles_problem(profiles.drop_last()) {
            Some(m) => Some(m),
            None => profile_problem(profiles.last()),
        }
    }
}

/// What is wrong with a file.
pub open spec fn file_problem(f: ConfigFile) -> Option<Seq<char>> {
    if layer_problem(f.base@, "base config"@) is Some {
        layer_problem(f.base@, "base config"@)
    } else if profiles_problem(f.profiles@) is Some {
        profiles_problem(f.profiles@)
    } else {
        match f.default_profile {
            Some(name) => if name@ != "default"@ && !has_key(f.profiles@, name@) {
                Some(
                    "default_profile '"@ + name@ + "' is not defined; "@ + available_text(
                        f.profiles@,
                    ),
                )
            } else {
                None
            },
            None => None,
        }
    }
}

/// The profile in effect: the selected one, else the default one of the file. The name of the
/// base layer stands for none.
pub open spec fn active_profile(f: ConfigFile, selected: Option<Seq<char>>) -> Option<Seq<char>> {
    let wanted = match selected {
        Some(n) => Some(n),
        None => optional_text(f.default_profile),
    };
    match wanted {
        Some(n) => if n == "default"@ {
            None
        } else {
            Some(n)
        },
        None => None,
    }
}

/// The settings in effect under a profile.
pub open spec fn merged_fields(f: ConfigFile, active: Option<Seq<char>>) -> Seq<
    Option<Seq<char>>,
> {
    match active {
        Some(n) => overlaid(f.base@, entry_of(f.profiles@, n).value@),
        None => f.base@,
    }
}

/// The settings in effect and the profile they come from, or what is wrong.
pub open spec fn resolution(f: ConfigFile, selected: Option<Seq<char>>) -> core::result::Result<
    (Seq<Option<Seq<char>>>, Option<Seq<char>>),
    Failure,
> {
    let active = active_profile(f, selected);
    if active is Some && !has_key(f.profiles@, active->0) {
        Err(
            Failure::Config(
                "profile '"@ + active->0 + "' is not defined; "@ + available_text(f.profiles@),
            ),
        )
    } else {
        match resolution_problem(merged_fields(f, active)) {
            Some(m) => Err(Failure::Config(m)),
            None => Ok((merged_fields(f, active), active)),
        }
    }
}

/// The names of the first `n` settings that a layer sets.
pub open spec fn set_fields(fields: Seq<Option<Seq<char>>>, n: nat) -> Seq<Seq<char>>
    decreases n,
{
    if n == 0 {
        Seq::empty()
    } else {
        let before = set_fields(fields, (n - 1) as nat);
        if fields[n - 1] is Some {
            before.push(field_name(n - 1))
        } else {
            before
        }
    }
}

/// The settings that come from a profile.
pub open spec fn profile_fields(f: ConfigFile, profile: Option<Seq<char>>) -> Seq<Seq<char>> {
    match profile {
        Some(n) => if n != "default"@ && has_key(f.profiles@, n) {
            set_fields(entry_of(f.profiles@, n).value@, 14)
        } else {
            Seq::empty()
        },
        None => Seq::empty(),
    }
}

/// The last of the first `n` entries of a table under a key.
pub open spec fn last_lookup(t: Seq<(Seq<char>, TomlTree)>, n: nat, key: Seq<char>) -> Option<
    TomlTree,
>
    decreases n,
{
    if n == 0 {
        None
    } else if t[n - 1].0 == key {
        Some(t[n - 1].1)
    } else {
        last_lookup(t, (n - 1) as nat, key)
    }
}

/// Whether profiles are those that the first `n` entries of a table declare.
pub open spec fn are_profiles(
    profiles: Seq<Named<ConfigLayer>>,
    t: Seq<(Seq<char>, TomlTree)>,
    n: nat,
) -> bool {
    &&& keys_ascend(profiles)
    &&& forall|k: Seq<char>| #[trigger]
        has_key(profiles, k) <==> last_lookup(t, n, k) is Some
    &&& forall|k: Seq<char>| #[trigger]
        has_key(profiles, k) ==> entry_of(profiles, k).value@ == profile_layer(
            last_lookup(t, n, k)->0,
        )
}

/// Whether a file is what a document describes.
pub open spec fn describes(t: Seq<(Seq<char>, TomlTree)>, f: ConfigFile) -> bool {
    &&& f.base@ == toml_layer(t)
    &&& optional_text(f.default_profile) == toml_text(t, "default_profile"@)
    &&& match lookup(t, "profiles"@) {
        Some(TomlTree::Table(_, p)) => are_profiles(f.profiles@, p, p.len()),
        _ => f.profiles@ == Seq::<Named<ConfigLayer>>::empty(),
    }
}

/// Whether `r` is what reading a TOML configuration gives.
pub open spec fn is_toml_outcome(contents: Seq<char>, r: Result<ConfigFile>) -> bool {
    match toml_document(contents) {
        Err(m) => r matches Err(e) && e@ == Failure::Config("Failed to parse TOML config: "@ + m),
        Ok(t) => match document_problem(contents, t->Table_0, t->Table_1) {
            Some(m) => r matches Err(e) && e@ == Failure::Config(
                "Failed to parse TOML config: "@ + m,
            ),
            None => exists|f: ConfigFile| #[trigger]
                describes(t->Table_1, f) && match file_problem(f) {
                    Some(m) => r matches Err(e) && e@ == Failure::Config(m),
                    None => r matches Ok(g) && g == f,
                },
        },
    }
}

/// Whether `r` is what reading an INI configuration gives.
pub open spec fn is_ini_outcome(contents: Seq<char>, r: Result<ConfigFile>) -> bool {
    match ini_document(contents) {
        Err(m) => r matches Err(e) && e@ == Failure::Config("Failed to parse .testr.conf: "@ + m),
        Ok(t) => match lookup(t, "DEFAULT"@) {
            None => r matches Err(e) && e@ == Failure::Config(
                "No [DEFAULT] section in .testr.conf"@,
            ),
            Some(vars) => match layer_problem(ini_layer(vars), "base config"@) {
                Some(m) => r matches Err(e) && e@ == Failure::Config(m),
                None => r matches Ok(f) && f.base@ == ini_layer(vars) && f.default_profile is None
                    && f.profiles@ == Seq::<Named<ConfigLayer>>::empty(),
            },
        },
    }
}

/// What a file holds, or why it could not be read.
pub open spec fn contents_text(contents: core::result::Result<String, String>) -> core::result::Result<
    Seq<char>,
    Seq<char>,
> {
    match contents {
        Ok(s) => Ok(s@),
        Err(s) => Err(s@),
    }
}

/// Whether `r` is what loading a file gives.
pub open spec fn is_load_outcome(
    path: Seq<char>,
    contents: core::result::Result<Seq<char>, Seq<char>>,
    r: Result<ConfigFile>,
) -> bool {
    match contents {
        Err(m) => r matches Err(e) && e@ == Failure::Config(
            "Failed to read "@ + path + ": "@ + m,
        ),
        Ok(s) => if has_suffix(path, ".toml"@) {
            is_toml_outcome(s, r)
        } else {
            is_ini_outcome(s, r)
        },
    }
}

/// Whether `r` is the configuration of the base layer of a file, without any profile.
pub open spec fn is_resolved(f: Result<ConfigFile>, r: Result<TestrConfig>) -> bool {
    match f {
        Err(e) => r matches Err(g) && g == e,
        Ok(f) => match resolution(f, Some("default"@)) {
            Ok((fields, _)) => r matches Ok(c) && c@ == fields,
            Err(m) => r matches Err(e) && e@ == m,
        },
    }
}

/// What is wrong with the first profiles is wrong with all.
proof fn profiles_problem_stays(profiles: Seq<Named<ConfigLayer>>, n: int)
    requires
        0 <= n <= profiles.len(),
        profiles_problem(profiles.take(n)) is Some,
    ensures
        profiles_problem(profiles) == profiles_problem(profiles.take(n)),
    decreases profiles.len() - n,
{
    if n < profiles.len() {
        assert(profiles.take(n + 1).drop_last() =~= profiles.take(n));
        profiles_problem_stays(profiles, n + 1);
    } else {
        assert(profiles.take(n) =~= profiles);
    }
}

/// Checks the name of a profile.
pub fn validate_profile_name(name: &str) -> (r: Result<()>)
    ensures
        match profile_name_problem(name@) {
            Some(m) => r matches Err(e) && e@ == Failure::Config(m),
            None => r is Ok,
        },
{
    if text_eq(name, "default") {
        return Err(
            Error::Config(
                "[profiles.default] is reserved; the top-level table is the implicit default".to_owned(),
            ),
        );
    }
    let v: Vec<char> = chars(name);
    if v.len() == 0 {
        return Err(Error::Config("profile name must not be empty".to_owned()));
    }
    if v[0] == '_' {
        return Err(
            Error::Config(
                cat3("invalid profile name '", name, "': must not start with '_'"),
            ),
        );
    }
    for i in 0..v.len()
        invariant
            v@ == name@,
            name@ != "default"@,
            v@.len() > 0,
            v@[0] != '_',
            forall|k: int|
                0 <= k < i ==> !(#[trigger] v@[k] == '.' || v@[k] == '/' || is_space(v@[k])),
    {
        if v[i] == '.' || v[i] == '/' || is_space_char(v[i]) {
            return Err(
                Error::Config(
                    cat3(
                        "invalid profile name '",
                        name,
                        "': must not contain '.', '/', or whitespace",
                    ),
                ),
            );
        }
    }
    Ok(())
}

impl ConfigFile {
    /// What is said of the profiles that there are.
    fn available_profiles_message(&self) -> (r: String)
        ensures
            r@ == available_text(self.profiles@),
    {
        if self.profiles.is_empty() {
            "no profiles are defined".to_owned()
        } else {
            cat2("available profiles: ", join(&self.profile_names(), ", ").as_str())
        }
    }

    /// The names of the profiles in ascending order.
    pub fn profile_names(&self) -> (r: Vec<String>)
        ensures
            texts(r@) == profile_keys(self.profiles@),
            keys_ascend(self.profiles@),
    {
        let v: &Vec<Named<ConfigLayer>> = self.profiles.entries();
        let mut r: Vec<String> = Vec::new();
        for i in 0..v.len()
            invariant
                texts(r@) =~= profile_keys(v@).take(i as int),
        {
            r.push(v[i].name.clone());
        }
        assert(texts(r@) =~= profile_keys(v@));
        r
    }

    /// Checks each layer by itself, the names of the profiles, and that the default profile is
    /// one of them. What settings ask of each other is not checked here: a base without a command
    /// is in order where a profile brings one.
    pub fn validate_syntax(&self) -> (r: Result<()>)
        ensures
            match file_problem(*self) {
                Some(m) => r matches Err(e) && e@ == Failure::Config(m),
                None => r is Ok,
            },
    {
        match self.base.validate_syntax("base config") {
            Err(e) => {
                return Err(e);
            },
            Ok(_) => {},
        }
        let v: &Vec<Named<ConfigLayer>> = self.profiles.entries();
        for i in 0..v.len()
            invariant
                v@ == self.profiles@,
                layer_problem(self.base@, "base config"@) is None,
                profiles_problem(v@.take(i as int)) is None,
        {
            let ghost now = v@.take(i + 1);
            assert(now.drop_last() =~= v@.take(i as int));
            let checked: Result<()> = match validate_profile_name(v[i].name.as_str()) {
                Ok(_) => v[i].value.validate_syntax(
                    cat3("profile '", v[i].name.as_str(), "'").as_str(),
                ),
                Err(e) => Err(e),
            };
            match checked {
                Err(e) => {
                    proof {
                        profiles_problem_stays(v@, i + 1);
                    }
                    return Err(e);
                },
                Ok(_) => {},
            }
        }
        assert(v@.take(v@.len() as int) =~= v@);
        if let Some(name) = &self.default_profile {
            if !text_eq(name.as_str(), "default") && !self.profiles.contains_key(name.as_str()) {
                let available: String = self.available_profiles_message();
                return Err(
                    Error::Config(
                        cat4(
                            "default_profile '",
                            name.as_str(),
                            "' is not defined; ",
                            available.as_str(),
                        ),
                    ),
                );
            }
        }
        Ok(())
    }

    /// The profiles that a table declares.
    fn profiles_from_toml(es: &Vec<(String, TomlValue)>) -> (r: TextMap<ConfigLayer>)
        ensures
            are_profiles(r@, table(es@), es@.len()),
    {
        let ghost t = table(es@);
        let mut profiles: TextMap<ConfigLayer> = KeyedList::new();
        for i in 0..es.len()
            invariant
                t == table(es@),
                are_profiles(profiles@, t, i as nat),
        {
            assert(t[i as int] == (es@[i as int].0@, tree(es@[i as int].1)));
            let layer: ConfigLayer = ConfigLayer::from_value(&es[i].1);
            let ghost before = profiles@;
            let e: Named<ConfigLayer> = Named { name: es[i].0.clone(), value: layer };
            let ghost g = e;
            profiles.put(e);
            proof {
                with_entry_laws(before, g);
                let n = (i + 1) as nat;
                assert(t[n - 1].0 == g.name@);
                assert(g.value@ == profile_layer(t[n - 1].1));
                assert forall|k: Seq<char>| #[trigger]
                    has_key(profiles@, k) <==> last_lookup(t, n, k) is Some by {
                    assert(k != g.name@ ==> has_key(before, k) == has_key(profiles@, k));
                }
                assert forall|k: Seq<char>| #[trigger]
                    has_key(profiles@, k) implies entry_of(profiles@, k).value@ == profile_layer(
                    last_lookup(t, n, k)->0,
                ) by {
                    if k != g.name@ {
                        assert(has_key(before, k));
                    }
                }
            }
        }
        profiles
    }

    /// The file that a TOML document describes. What has not the shape of a configuration is
    /// passed over.
    fn from_toml(es: &Vec<(String, TomlValue)>) -> (r: ConfigFile)
        ensures
            describes(table(es@), r),
    {
        let base: ConfigLayer = ConfigLayer::from_toml(es);
        let default_profile: Option<String> = string_under(es, "default_profile");
        match find_value(es, "profiles") {
            Some(TomlValue::Table(_, p)) => {
                proof {
                    let sub = lookup(table(es@), "profiles"@)->0;
                    assert(sub->Table_1 =~= table(p@));
                }
                ConfigFile { base, default_profile, profiles: ConfigFile::profiles_from_toml(p) }
            },
            _ => ConfigFile { base, default_profile, profiles: KeyedList::new() },
        }
    }

    /// Reads a TOML configuration.
    pub fn parse_toml(contents: &str) -> (r: Result<ConfigFile>)
        ensures
            is_toml_outcome(contents@, r),
    {
        match parse_toml_document(contents) {
            Err(e) => Err(Error::Config(cat2("Failed to parse TOML config: ", e.as_str()))),
            Ok((place, es)) => match check_document(contents, place, &es) {
                Some(e) => Err(Error::Config(cat2("Failed to parse TOML config: ", e.as_str()))),
                None => {
                    let f: ConfigFile = ConfigFile::from_toml(&es);
                    assert(describes(table(es@), f));
                    match f.validate_syntax() {
                        Ok(_) => Ok(f),
                        Err(e) => Err(e),
                    }
                },
            },
        }
    }

    /// The file that the sections of an INI document describe: the section `DEFAULT` is its base.
    pub fn from_ini(sections: &Vec<IniSection>) -> (r: Result<ConfigFile>)
        ensures
            match lookup(ini_sections(sections@), "DEFAULT"@) {
                None => r matches Err(e) && e@ == Failure::Config(
                    "No [DEFAULT] section in .testr.conf"@,
                ),
                Some(vars) => match layer_problem(ini_layer(vars), "base config"@) {
                    Some(m) => r matches Err(e) && e@ == Failure::Config(m),
                    None => r matches Ok(f) && f.base@ == ini_layer(vars) && f.default_profile
                        is None && f.profiles@ == Seq::<Named<ConfigLayer>>::empty(),
                },
            },
    {
        match find_section(sections, "DEFAULT") {
            None => Err(Error::Config("No [DEFAULT] section in .testr.conf".to_owned())),
            Some(vars) => {
                let f = ConfigFile {
                    base: ConfigLayer::from_ini(vars),
                    default_profile: None,
                    profiles: KeyedList::new(),
                };
                match f.validate_syntax() {
                    Ok(_) => Ok(f),
                    Err(e) => Err(e),
                }
            },
        }
    }

    /// Reads an INI configuration, which has no profiles.
    pub fn parse_ini(contents: &str) -> (r: Result<ConfigFile>)
        ensures
            is_ini_outcome(contents@, r),
    {
        match read_ini(contents) {
            Err(e) => Err(Error::Config(cat2("Failed to parse .testr.conf: ", e.as_str()))),
            Ok(sections) => ConfigFile::from_ini(&sections),
        }
    }

    /// Applies a profile and checks the settings that result. A selected profile goes before the
    /// default one of the file; `default` stands for the base layer alone.
    pub fn resolve(&self, selected: Option<&str>) -> (r: Result<(TestrConfig, Option<String>)>)
        ensures
            match resolution(
                *self,
                match selected {
                    Some(s) => Some(s@),
                    None => None,
                },
            ) {
                Ok((fields, active)) => r matches Ok((c, a)) && c@ == fields && optional_text(a)
                    == active,
                Err(f) => r matches Err(e) && e@ == f,
            },
    {
        let wanted: Option<String> = match selected {
            Some(name) => Some(name.to_owned()),
            None => copy_text(&self.default_profile),
        };
        let active: Option<String> = match wanted {
            None => None,
            Some(name) => if text_eq(name.as_str(), "default") {
                None
            } else {
                Some(name)
            },
        };
        let mut merged: ConfigLayer = self.base.copy();
        if let Some(name) = &active {
            match self.profiles.get(name.as_str()) {
                None => {
                    let available: String = self.available_profiles_message();
                    return Err(
                        Error::Config(
                            cat4(
                                "profile '",
                                name.as_str(),
                                "' is not defined; ",
                                available.as_str(),
                            ),
                        ),
                    );
                },
                Some(layer) => {
                    merged.overlay(layer);
                },
            }
        }
        match TestrConfig::from_resolved_layer(merged) {
            Ok(c) => Ok((c, active)),
            Err(e) => Err(e),
        }
    }

    /// The settings that a profile brings, by name.
    pub fn fields_from_profile(&self, profile: Option<&str>) -> (r: Vec<String>)
        ensures
            texts(r@) == profile_fields(
                *self,
                match profile {
                    Some(s) => Some(s@),
                    None => None,
                },
            ),
    {
        let mut set: Vec<String> = Vec::new();
        assert(texts(set@) =~= Seq::<Seq<char>>::empty());
        let name: &str = match profile {
            Some(n) => n,
            None => {
                return set;
            },
        };
        if text_eq(name, "default") {
            return set;
        }
        let layer: &ConfigLayer = match self.profiles.get(name) {
            Some(l) => l,
            None => {
                return set;
            },
        };
        for i in 0..FIELD_COUNT
            invariant
                texts(set@) == set_fields(layer@, i as nat),
        {
            if layer.field(i).is_some() {
                set.push(field_label(i).to_owned());
            }
        }
        set
    }
}

/// A path of a directory and the name of a file in it.
pub open spec fn path_in(dir: Seq<char>, name: Seq<char>) -> Seq<char> {
    if dir.len() == 0 {
        name
    } else if dir.last() == '/' {
        dir + name
    } else {
        dir + "/"@ + name
    }
}

/// The names of configuration files, in the order in which they are looked for.
pub open spec fn config_file_name(i: int) -> Seq<char> {
    if i == 0 {
        "inquest.toml"@
    } else if i == 1 {
        ".inquest.toml"@
    } else {
        ".testr.conf"@
    }
}

/// The first configuration file that is among `names`.
pub open spec fn first_config(names: Seq<Seq<char>>, from: int) -> Option<int>
    decreases 3 - from,
{
    if from >= 3 {
        None
    } else if has_text(names, config_file_name(from)) {
        Some(from)
    } else {
        first_config(names, from + 1)
    }
}

/// The name of a configuration file.
pub(crate) fn config_file_label(i: usize) -> (r: &'static str)
    requires
        i < 3,
    ensures
        r@ == config_file_name(i as int),
{
    match i {
        0 => "inquest.toml",
        1 => ".inquest.toml",
        _ => ".testr.conf",
    }
}

/// A path of a directory and the name of a file in it.
pub fn join_path(dir: &str, name: &str) -> (r: String)
    ensures
        r@ == path_in(dir@, name@),
{
    let v: Vec<char> = chars(dir);
    if v.len() == 0 {
        name.to_owned()
    } else if v[v.len() - 1] == '/' {
        cat2(dir, name)
    } else {
        cat3(dir, "/", name)
    }
}

/// The first configuration file that is among the files of a directory.
pub open spec fn first_present(
    files: Seq<Named<core::result::Result<String, String>>>,
    from: int,
) -> Option<int>
    decreases 3 - from,
{
    if from >= 3 {
        None
    } else if has_key(files, config_file_name(from)) {
        Some(from)
    } else {
        first_present(files, from + 1)
    }
}

/// What is said where there is no configuration file.
pub open spec fn no_config_text() -> Seq<char> {
    "No configuration file found (looked for inquest.toml, .inquest.toml, .testr.conf)"@
}

/// Whether a directory with the given files holds a configuration file.
pub fn has_config_file(names: &Vec<String>) -> (r: bool)
    ensures
        r == (first_config(texts(names@), 0) is Some),
{
    for i in 0..3usize
        invariant
            first_config(texts(names@), 0) == first_config(texts(names@), i as int),
    {
        if contains_text(names, config_file_label(i)) {
            return true;
        }
    }
    false
}

impl ConfigFile {
    /// Reads the contents of a configuration file: a path that ends in `.toml` names a TOML file,
    /// any other an INI file. `contents` says why where the file could not be read.
    pub fn load_from_file(path: &str, contents: &core::result::Result<String, String>) -> (r:
        Result<ConfigFile>)
        ensures
            is_load_outcome(path@, contents_text(*contents), r),
    {
        match contents {
            Err(m) => Err(Error::Config(cat4("Failed to read ", path, ": ", m.as_str()))),
            Ok(s) => if ends_with(path, ".toml") {
                ConfigFile::parse_toml(s.as_str())
            } else {
                ConfigFile::parse_ini(s.as_str())
            },
        }
    }

    /// Reads the first of the configuration files among the files of a directory. Gives the
    /// path of the file too.
    pub fn find_in_directory(
        dir: &str,
        files: &TextMap<core::result::Result<String, String>>,
    ) -> (r: Result<(ConfigFile, String)>)
        ensures
            match first_present(files@, 0) {
                None => r matches Err(e) && e@ == Failure::Config(no_config_text()),
                Some(i) => {
                    let name = config_file_name(i);
                    let contents = contents_text(entry_of(files@, name).value);
                    match r {
                        Ok((f, p)) => p@ == path_in(dir@, name) && is_load_outcome(
                            path_in(dir@, name),
                            contents,
                            Ok(f),
                        ),
                        Err(e) => is_load_outcome(path_in(dir@, name), contents, Err(e)),
                    }
                },
            },
    {
        for i in 0..3usize
            invariant
                first_present(files@, 0) == first_present(files@, i as int),
        {
            let name: &str = config_file_label(i);
            if let Some(contents) = files.get(name) {
                let path: String = join_path(dir, name);
                return match ConfigFile::load_from_file(path.as_str(), contents) {
                    Ok(f) => Ok((f, path)),
                    Err(e) => Err(e),
                };
            }
        }
        Err(
            Error::Config(
                "No configuration file found (looked for inquest.toml, .inquest.toml, .testr.conf)".to_owned(),
            ),
        )
    }
}

impl TestrConfig {
    /// The configuration of the base layer of a file, without any profile.
    fn of_file(f: Result<ConfigFile>) -> (r: Result<TestrConfig>)
        ensures
            is_resolved(f, r),
    {
        match f {
            Err(e) => Err(e),
            Ok(f) => match f.resolve(Some("default")) {
                Ok((c, _)) => Ok(c),
                Err(e) => Err(e),
            },
        }
    }

    /// Reads a configuration file and takes its base layer, without any profile.
    pub fn load_from_file(path: &str, contents: &core::result::Result<String, String>) -> (r:
        Result<TestrConfig>)
        ensures
            exists|f: Result<ConfigFile>| #[trigger]
                is_load_outcome(path@, contents_text(*contents), f) && is_resolved(f, r),
    {
        let f: Result<ConfigFile> = ConfigFile::load_from_file(path, contents);
        let ghost g = f;
        assert(is_load_outcome(path@, contents_text(*contents), g));
        TestrConfig::of_file(f)
    }

    /// Reads the first of the configuration files of a directory and takes its base layer, without
    /// any profile. Gives the path of the file too.
    pub fn find_in_directory(
        dir: &str,
        files: &TextMap<core::result::Result<String, String>>,
    ) -> (r: Result<(TestrConfig, String)>)
        ensures
            match first_present(files@, 0) {
                None => r matches Err(e) && e@ == Failure::Config(no_config_text()),
                Some(i) => {
                    let path = path_in(dir@, config_file_name(i));
                    let contents = contents_text(entry_of(files@, config_file_name(i)).value);
                    exists|f: Result<ConfigFile>| #[trigger]
                        is_load_outcome(path, contents, f) && match r {
                            Ok((c, p)) => p@ == path && is_resolved(f, Ok(c)),
                            Err(e) => is_resolved(f, Err(e)),
                        }
                },
            },
    {
        match ConfigFile::find_in_directory(dir, files) {
            Err(e) => {
                let ghost f: Result<ConfigFile> = Err(e);
                assert(first_present(files@, 0) matches Some(i) ==> is_load_outcome(
                    path_in(dir@, config_file_name(i)),
                    contents_text(entry_of(files@, config_file_name(i)).value),
                    f,
                ));
                Err(e)
            },
            Ok((f, path)) => {
                let ghost g: Result<ConfigFile> = Ok(f);
                assert(first_present(files@, 0) matches Some(i) ==> is_load_outcome(
                    path_in(dir@, config_file_name(i)),
                    contents_text(entry_of(files@, config_file_name(i)).value),
                    g,
                ));
                match f.resolve(Some("default")) {
                    Ok((c, _)) => Ok((c, path)),
                    Err(e) => Err(e),
                }
            },
        }
    }

    /// Reads a TOML configuration and takes its base layer, without any profile.
    pub fn parse_toml(contents: &str) -> (r: Result<TestrConfig>)
        ensures
            exists|f: Result<ConfigFile>| #[trigger]
                is_toml_outcome(contents@, f) && is_resolved(f, r),
    {
        let f: Result<ConfigFile> = ConfigFile::parse_toml(contents);
        let ghost g = f;
        assert(is_toml_outcome(contents@, g));
        TestrConfig::of_file(f)
    }

    /// Reads an INI configuration.
    pub fn parse_ini(contents: &str) -> (r: Result<TestrConfig>)
        ensures
            exists|f: Result<ConfigFile>| #[trigger]
                is_ini_outcome(contents@, f) && is_resolved(f, r),
    {
        let f: Result<ConfigFile> = ConfigFile::parse_ini(contents);
        let ghost g = f;
        assert(is_ini_outcome(contents@, g));
        TestrConfig::of_file(f)
    }

    /// Reads an INI configuration.
    pub fn parse(contents: &str) -> (r: Result<TestrConfig>)
        ensures
            exists|f: Result<ConfigFile>| #[trigger]
                is_ini_outcome(contents@, f) && is_resolved(f, r),
    {
        TestrConfig::parse_ini(contents)
    }

    /// The setting of a number.
    fn setting(&self, i: usize) -> (r: Option<String>)
        requires
            i < FIELD_COUNT,
        ensures
            optional_text(r) == self@[i as int],
    {
        match i {
            0 => Some(self.test_command.clone()),
            1 => copy_text(&self.test_id_option),
            2 => copy_text(&self.test_list_option),
            3 => copy_text(&self.test_id_list_default),
            4 => copy_text(&self.test_run_concurrency),
            5 => copy_text(&self.filter_tags),
            6 => copy_text(&self.group_regex),
            7 => copy_text(&self.test_timeout),
            8 => copy_text(&self.max_duration),
            9 => copy_text(&self.no_output_timeout),
            10 => copy_text(&self.instance_provision),
            11 => copy_text(&self.instance_execute),
            12 => copy_text(&self.instance_dispose),
            _ => copy_text(&self.test_order),
        }
    }

    /// Writes the settings that are set as a TOML document. Reading the document gives the
    /// settings back.
    pub fn to_toml(&self) -> (r: Result<String>)
        ensures
            is_written(self@, r),
    {
        let mut es: Vec<(String, String)> = Vec::new();
        proof {
            field_names_differ();
        }
        for i in 0..FIELD_COUNT
            invariant
                forall|a: int, b: int| 0 <= a < b < 14 ==> field_name(a) != field_name(b),
                keys_differ(es@),
                0 <= i <= 14,
                forall|k: int|
                    0 <= k < es@.len() ==> is_field_below((#[trigger] es@[k]).0@, i as int),
                text_pairs(es@) =~= set_texts(self@, i as nat),
        {
            let ghost earlier = es@;
            if let Some(value) = self.setting(i) {
                let ghost before = es@;
                es.push((field_label(i).to_owned(), value));
                proof {
                    assert forall|a: int, b: int| 0 <= a < b < es@.len() implies (
                    #[trigger] es@[a]).0@ != (#[trigger] es@[b]).0@ by {
                        assert(es@[a] == before[a]);
                        assert(is_field_below(before[a].0@, i as int));
                        if b < before.len() {
                            assert(es@[b] == before[b]);
                        }
                    }
                    assert(text_pairs(es@) =~= set_texts(self@, (i + 1) as nat));
                }
            }
            proof {
                assert forall|k: int| 0 <= k < es@.len() implies is_field_below(
                    (#[trigger] es@[k]).0@,
                    i + 1,
                ) by {
                    if k < earlier.len() {
                        assert(is_field_below(earlier[k].0@, i as int));
                    } else {
                        assert(es@[k].0@ == field_name(i as int));
                    }
                }
            }
        }
        match write_toml(&es) {
            Ok(s) => Ok(s),
            Err(e) => Err(
                Error::Config(cat2("Failed to serialize TOML config: ", e.as_str())),
            ),
        }
    }
}

/// Whether a text names one of the first `n` settings.
pub open spec fn is_field_below(name: Seq<char>, n: int) -> bool {
    exists|a: int| 0 <= a < n && name == #[trigger] field_name(a)
}

/// The first `n` settings that are set, with their names.
pub open spec fn set_texts(fields: Seq<Option<Seq<char>>>, n: nat) -> Seq<(Seq<char>, Seq<char>)>
    decreases n,
{
    if n == 0 {
        Seq::empty()
    } else {
        let before = set_texts(fields, (n - 1) as nat);
        match fields[n - 1] {
            Some(v) => before.push((field_name(n - 1), v)),
            None => before,
        }
    }
}

/// Whether `r` is what writing the settings that are set gives: a document that gives them back.
pub open spec fn is_written(fields: Seq<Option<Seq<char>>>, r: Result<String>) -> bool {
    match toml_written(set_texts(fields, 14)) {
        Ok(t) => r matches Ok(s) && s@ == t && is_text_table(
            toml_document(t),
            set_texts(fields, 14),
        ),
        Err(m) => r matches Err(e) && e@ == Failure::Config(
            "Failed to serialize TOML config: "@ + m,
        ),
    }
}

/// The settings have different names.
pub proof fn field_names_differ()
    ensures
        forall|a: int, b: int| 0 <= a < b < 14 ==> field_name(a) != field_name(b),
        forall|a: int|
            0 <= a < 14 ==> field_name(a) != "profiles"@ && field_name(a) != "default_profile"@,
{
    reveal_strlit("test_command");
    reveal_strlit("test_id_option");
    reveal_strlit("test_list_option");
    reveal_strlit("test_id_list_default");
    reveal_strlit("test_run_concurrency");
    reveal_strlit("filter_tags");
    reveal_strlit("group_regex");
    reveal_strlit("test_timeout");
    reveal_strlit("max_duration");
    reveal_strlit("no_output_timeout");
    reveal_strlit("instance_provision");
    reveal_strlit("instance_execute");
    reveal_strlit("instance_dispose");
    reveal_strlit("test_order");
    reveal_strlit("profiles");
    reveal_strlit("default_profile");
    assert("test_command"@.len() == 12);
    assert("test_id_option"@.len() == 14);
    assert("test_list_option"@.len() == 16);
    assert("test_id_list_default"@.len() == 20);
    assert("test_run_concurrency"@.len() == 20);
    assert("filter_tags"@.len() == 11);
    assert("group_regex"@.len() == 11);
    assert("test_timeout"@.len() == 12);
    assert("max_duration"@.len() == 12);
    assert("no_output_timeout"@.len() == 17);
    assert("instance_provision"@.len() == 18);
    assert("instance_execute"@.len() == 16);
    assert("instance_dispose"@.len() == 16);
    assert("test_order"@.len() == 10);
    assert("profiles"@.len() == 8);
    assert("default_profile"@.len() == 15);
    assert("test_command"@[5] == 'c' && "test_timeout"@[5] == 't' && "max_duration"@[5] == 'u');
    assert("filter_tags"@[0] == 'f' && "group_regex"@[0] == 'g');
    assert("test_list_option"@[0] == 't' && "instance_execute"@[0] == 'i' && "instance_dispose"@[0]
        == 'i');
    assert("instance_execute"@[9] == 'e' && "instance_dispose"@[9] == 'd');
    assert("test_id_list_default"@[5] == 'i' && "test_run_concurrency"@[5] == 'r');
}

/// The text that a list of settings has for a setting.
proof fn set_texts_lookup(fields: Seq<Option<Seq<char>>>, n: nat, i: int)
    requires
        n <= 14,
        0 <= i < 14,
    ensures
        lookup(set_texts(fields, n), field_name(i)) == (if i < n {
            fields[i]
        } else {
            None
        }),
    decreases n,
{
    field_names_differ();
    if n > 0 {
        let before = set_texts(fields, (n - 1) as nat);
        set_texts_lookup(fields, (n - 1) as nat, i);
        if let Some(v) = fields[n - 1] {
            lookup_push(before, (field_name(n - 1), v), field_name(i));
            if i < n - 1 {
                assert(field_name(i) != field_name(n - 1));
            } else if i > n - 1 {
                assert(field_name(n - 1) != field_name(i));
            }
        }
    }
}

/// A list of settings has names of settings only.
proof fn set_texts_names(fields: Seq<Option<Seq<char>>>, n: nat, k: int)
    requires
        n <= 14,
        0 <= k < set_texts(fields, n).len(),
    ensures
        is_field(set_texts(fields, n)[k].0),
    decreases n,
{
    let before = set_texts(fields, (n - 1) as nat);
    if k < before.len() {
        set_texts_names(fields, (n - 1) as nat, k);
    } else {
        assert(set_texts(fields, n)[k].0 == field_name(n - 1));
    }
}

proof fn lookup_push(t: Seq<(Seq<char>, Seq<char>)>, e: (Seq<char>, Seq<char>), key: Seq<char>)
    ensures
        lookup(t.push(e), key) == (if lookup(t, key) is Some {
            lookup(t, key)
        } else if e.0 == key {
            Some(e.1)
        } else {
            None
        }),
    decreases t.len(),
{
    if t.len() > 0 {
        assert(t.push(e).drop_first() =~= t.drop_first().push(e));
        lookup_push(t.drop_first(), e, key);
    } else {
        assert(t.push(e).drop_first() =~= t);
    }
}

/// A table of strings has the strings under their keys.
proof fn text_table_lookup(
    t: Seq<(Seq<char>, TomlTree)>,
    pairs: Seq<(Seq<char>, Seq<char>)>,
    key: Seq<char>,
)
    requires
        t.len() == pairs.len(),
        forall|i: int|
            0 <= i < t.len() ==> (#[trigger] t[i]).0 == pairs[i].0 && text_of(t[i].1) == Some(
                pairs[i].1,
            ),
    ensures
        toml_text(t, key) == lookup(pairs, key),
        lookup(t, key) is Some <==> lookup(pairs, key) is Some,
    decreases t.len(),
{
    if t.len() > 0 {
        assert(t[0].0 == pairs[0].0);
        let rest = t.drop_first();
        let others = pairs.drop_first();
        assert forall|i: int| 0 <= i < rest.len() implies (#[trigger] rest[i]).0 == others[i].0
            && text_of(rest[i].1) == Some(others[i].1) by {
            assert(rest[i] == t[i + 1]);
        }
        text_table_lookup(rest, others, key);
    }
}

/// A key that no entry has is not found.
proof fn not_found(pairs: Seq<(Seq<char>, Seq<char>)>, key: Seq<char>)
    requires
        forall|i: int| 0 <= i < pairs.len() ==> (#[trigger] pairs[i]).0 != key,
    ensures
        lookup(pairs, key) is None,
{
    lookup_is(pairs, key, pairs.len() as int);
}

/// The settings of a configuration, written as a document and read again, are the same.
pub proof fn written_settings_are_read_back(
    fields: Seq<Option<Seq<char>>>,
    contents: Seq<char>,
    place: Place,
    t: Seq<(Seq<char>, TomlTree)>,
)
    requires
        fields.len() == 14,
        is_text_table(Ok(TomlTree::Table(place, t)), set_texts(fields, 14)),
    ensures
        document_problem(contents, place, t) is None,
        toml_layer(t) == fields,
        forall|f: ConfigFile| #[trigger]
            describes(t, f) ==> f.base@ == fields && f.default_profile is None && f.profiles@
                == Seq::<Named<ConfigLayer>>::empty(),
{
    let pairs = set_texts(fields, 14);
    field_names_differ();
    assert forall|i: int| 0 <= i < t.len() implies (#[trigger] t[i]).0 == pairs[i].0 && text_of(
        t[i].1,
    ) == Some(pairs[i].1) && is_field(t[i].0) by {
        set_texts_names(fields, 14, i);
    }
    assert forall|i: int| 0 <= i < 14 implies toml_text(t, #[trigger] field_name(i))
        == fields[i] by {
        set_texts_lookup(fields, 14, i);
        text_table_lookup(t, pairs, field_name(i));
    }
    assert(toml_layer(t) =~= fields);
    assert forall|i: int| 0 <= i < pairs.len() implies (#[trigger] pairs[i]).0 != "profiles"@
        && pairs[i].0 != "default_profile"@ by {
        assert(is_field(t[i].0));
    }
    not_found(pairs, "profiles"@);
    not_found(pairs, "default_profile"@);
    text_table_lookup(t, pairs, "profiles"@);
    text_table_lookup(t, pairs, "default_profile"@);
    assert forall|i: int| 0 <= i < t.len() implies #[trigger] entry_part(t)(i) is None by {
        assert(pairs[i].0 != "profiles"@);
        assert(t[i].0 == pairs[i].0);
    }
    nothing_found(entry_part(t), t.len());
    assert forall|i: int| 0 <= i < t.len() implies #[trigger] base_part(t)(i) is None by {
        assert(t[i].0 == pairs[i].0);
    }
    nothing_found(base_part(t), t.len());
}

/// The base layer alone is in effect where no profile is selected or `default` is, and the file
/// has no default profile.
pub proof fn default_is_base(f: ConfigFile)
    requires
        f.default_profile is None,
    ensures
        resolution(f, Some("default"@)) == resolution(f, None),
        resolution(f, None) matches Ok((fields, active)) ==> fields == f.base@ && active is None,
{
}

/// A profile that is selected is in effect, whatever the default one is. Where none is selected, the
/// default one of the file is, and the base layer alone where there is none.
pub proof fn selected_profile_goes_before_the_default(f: ConfigFile, selected: Option<Seq<char>>)
    ensures
        resolution(f, selected) matches Ok((fields, active)) ==> match selected {
            Some(n) => active == (if n == "default"@ {
                None
            } else {
                Some(n)
            }),
            None => match f.default_profile {
                Some(d) => active == (if d@ == "default"@ {
                    None
                } else {
                    Some(d@)
                }),
                None => active is None,
            },
        },
        resolution(f, selected) matches Ok((fields, Some(n))) ==> has_key(f.profiles@, n),
        selected matches Some(n) && n != "default"@ && !has_key(f.profiles@, n) ==> resolution(
            f,
            selected,
        ) is Err,
        selected is None && f.default_profile is Some ==> resolution(f, None) == resolution(
            f,
            Some(f.default_profile->0@),
        ),
{
}

/// A setting is told to come from a profile exactly if the profile sets it.
pub proof fn settings_come_from_the_profile_that_sets_them(f: ConfigFile, name: Seq<char>, i: int)
    requires
        0 <= i < 14,
        name != "default"@,
        has_key(f.profiles@, name),
    ensures
        has_text(profile_fields(f, Some(name)), field_name(i)) <==> entry_of(
            f.profiles@,
            name,
        ).value@[i] is Some,
        profile_fields(f, None).len() == 0,
{
    set_fields_are(entry_of(f.profiles@, name).value@, 14, i);
}

proof fn set_fields_are(fields: Seq<Option<Seq<char>>>, n: nat, i: int)
    requires
        n <= 14,
        0 <= i < 14,
    ensures
        has_text(set_fields(fields, n), field_name(i)) <==> i < n && fields[i] is Some,
    decreases n,
{
    field_names_differ();
    let all = set_fields(fields, n);
    if n > 0 {
        let before = set_fields(fields, (n - 1) as nat);
        set_fields_are(fields, (n - 1) as nat, i);
        if has_text(all, field_name(i)) {
            let k = choose|k: int| 0 <= k < all.len() && #[trigger] all[k] == field_name(i);
            if k < before.len() {
                assert(before[k] == field_name(i));
            } else {
                assert(field_name(n - 1) == field_name(i));
                if i < n - 1 {
                    assert(field_name(i) != field_name(n - 1));
                } else if i > n - 1 {
                    assert(field_name(n - 1) != field_name(i));
                }
            }
        }
        if has_text(before, field_name(i)) {
            let k = choose|k: int| 0 <= k < before.len() && #[trigger] before[k] == field_name(i);
            assert(all[k] == field_name(i));
        }
        if i == n - 1 && fields[i] is Some {
            assert(all[all.len() - 1] == field_name(i));
        }
    }
}

/// A setting that a profile brings is in effect under the profile; any other is that of the base.
pub proof fn profile_goes_before_base(f: ConfigFile, name: Seq<char>, i: int)
    requires
        0 <= i < 14,
        resolution(f, Some(name)) is Ok,
        name != "default"@,
    ensures
        has_key(f.profiles@, name),
        ({
            let fields = (resolution(f, Some(name))->Ok_0).0;
            let set = entry_of(f.profiles@, name).value@[i];
            fields[i] == (if set is Some {
                set
            } else {
                f.base@[i]
            })
        }),
{
}

} // verus!
