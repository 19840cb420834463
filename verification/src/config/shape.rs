//! What values the parts of a TOML configuration have to have.
//!
//! A configuration is a table. Its settings and those of its profiles are strings. A profile is a
//! table of settings, or a list of them in their order. What is not asked for may be anything that
//! can be read.

use vstd::prelude::*;
use vstd::string::*;

use crate::commands::auto::{debug_text, quote};
use crate::config::layer::{field_label, field_name, FIELD_COUNT};
use crate::document::{error_text, items, render_error, table, tree, Place, TomlTree, TomlValue};
use crate::text::compose::{cat2, cat4, chars, slice};
use crate::text::order::text_eq;
use crate::text::scan::{ends_with, has_suffix};

verus! {

/// Something that is wrong, and where.
pub type Mismatch = (Place, Seq<char>);

/// Where a value stands.
pub open spec fn place_of(t: TomlTree) -> Place {
    match t {
        TomlTree::Text(p, _) => p,
        TomlTree::Table(p, _) => p,
        TomlTree::List(p, _) => p,
        TomlTree::Moment(p, _) => p,
        TomlTree::Other(p, _) => p,
    }
}

/// A message of what is wrong where a string is expected, for the case that something else is.
pub open spec fn expecting(message: Seq<char>, what: Seq<char>) -> Seq<char> {
    if has_suffix(message, "a string"@) {
        message.take(message.len() - 8) + what
    } else {
        message
    }
}

/// What is wrong with a value where a string is expected.
pub open spec fn text_mismatch(t: TomlTree) -> Option<Seq<char>> {
    match t {
        TomlTree::Text(_, _) => None,
        TomlTree::Table(_, _) => Some("invalid type: map, expected a string"@),
        TomlTree::Moment(_, _) => Some("invalid type: map, expected a string"@),
        TomlTree::List(_, _) => Some("invalid type: sequence, expected a string"@),
        TomlTree::Other(_, m) => Some(m),
    }
}

/// What is wrong with a value other than a table where one is expected.
pub open spec fn table_mismatch(t: TomlTree, what: Seq<char>) -> Seq<char> {
    match t {
        TomlTree::Text(_, s) => string_mismatch(s, what),
        TomlTree::Moment(_, s) => string_mismatch(s, what),
        TomlTree::Other(_, m) => expecting(m, what),
        _ => "invalid type: sequence, expected "@ + what,
    }
}

/// What is wrong with a string where something else is expected.
pub open spec fn string_mismatch(s: Seq<char>, what: Seq<char>) -> Seq<char> {
    "invalid type: string "@ + debug_text(s) + ", expected "@ + what
}

/// Whether the message of a value says that it is an integer of more than 64 binary digits.
pub open spec fn is_wide(message: Seq<char>) -> bool {
    has_suffix(message, " as i128, expected a string"@) || has_suffix(
        message,
        " as u128, expected a string"@,
    )
}

/// What is wrong with a value that is not asked for: a number that is too large. Values that are
/// `kept` must not be integers of more than 64 binary digits either.
pub open spec fn refused(t: TomlTree, kept: bool) -> Option<Mismatch>
    decreases t, 0nat,
{
    match t {
        TomlTree::Other(p, m) => if !has_suffix(m, "a string"@) {
            Some((p, m))
        } else if kept && is_wide(m) {
            Some((p, expecting(m, "any value"@)))
        } else {
            None
        },
        TomlTree::Table(_, es) => refused_entry(es, es.len(), kept),
        TomlTree::List(_, vs) => refused_item(vs, vs.len(), kept),
        _ => None,
    }
}

/// What is wrong with the first of the first `n` entries of a table that something is wrong with.
pub open spec fn refused_entry(es: Seq<(Seq<char>, TomlTree)>, n: nat, kept: bool) -> Option<Mismatch>
    decreases es, n,
{
    if n == 0 || n > es.len() {
        None
    } else {
        match refused_entry(es, (n - 1) as nat, kept) {
            Some(x) => Some(x),
            None => refused(es[n - 1].1, kept),
        }
    }
}

/// What is wrong with the first of the first `n` items of a list that something is wrong with.
pub open spec fn refused_item(vs: Seq<TomlTree>, n: nat, kept: bool) -> Option<Mismatch>
    decreases vs, n,
{
    if n == 0 || n > vs.len() {
        None
    } else {
        match refused_item(vs, (n - 1) as nat, kept) {
            Some(x) => Some(x),
            None => refused(vs[n - 1], kept),
        }
    }
}

/// The first of the first `n` things that there is.
pub open spec fn first_found<T>(part: spec_fn(int) -> Option<T>, n: nat) -> Option<T>
    decreases n,
{
    if n == 0 {
        None
    } else {
        match first_found(part, (n - 1) as nat) {
            Some(x) => Some(x),
            None => part(n - 1),
        }
    }
}

/// What is found first among the first things is found first among more.
pub proof fn first_found_stays<T>(part: spec_fn(int) -> Option<T>, m: nat, n: nat)
    requires
        m <= n,
        first_found(part, m) is Some,
    ensures
        first_found(part, n) == first_found(part, m),
    decreases n,
{
    if m < n {
        first_found_stays(part, m, (n - 1) as nat);
    }
}

/// Nothing is found where there is nothing.
pub proof fn nothing_found<T>(part: spec_fn(int) -> Option<T>, n: nat)
    requires
        forall|i: int| 0 <= i < n ==> #[trigger] part(i) is None,
    ensures
        first_found(part, n) is None,
    decreases n,
{
    if n > 0 {
        nothing_found(part, (n - 1) as nat);
        assert(part(n - 1) is None);
    }
}

/// Whether a text names a setting.
pub open spec fn is_field(name: Seq<char>) -> bool {
    exists|a: int| 0 <= a < 14 && name == #[trigger] field_name(a)
}

/// What is wrong with a value where a string is expected, and where.
pub open spec fn text_problem(t: TomlTree) -> Option<Mismatch> {
    match text_mismatch(t) {
        Some(m) => Some((place_of(t), m)),
        None => None,
    }
}

/// What is wrong with an entry of a profile.
pub open spec fn setting_part(es: Seq<(Seq<char>, TomlTree)>) -> spec_fn(int) -> Option<Mismatch> {
    |i: int|
        if is_field(es[i].0) {
            text_problem(es[i].1)
        } else {
            refused(es[i].1, false)
        }
}

/// What is wrong with an item of a profile.
pub open spec fn item_part(vs: Seq<TomlTree>) -> spec_fn(int) -> Option<Mismatch> {
    |i: int| text_problem(vs[i])
}

/// How many items of a profile count.
pub open spec fn item_count(vs: Seq<TomlTree>) -> nat {
    if vs.len() > 14 {
        14
    } else {
        vs.len()
    }
}

/// What is wrong with a profile.
pub open spec fn layer_mismatch(t: TomlTree) -> Option<Mismatch> {
    match t {
        TomlTree::Table(_, es) => first_found(setting_part(es), es.len()),
        TomlTree::List(_, vs) => first_found(item_part(vs), item_count(vs)),
        TomlTree::Moment(_, _) => None,
        _ => Some((place_of(t), table_mismatch(t, "struct ConfigLayer"@))),
    }
}

/// What is wrong with the profile of an entry.
pub open spec fn layer_part(es: Seq<(Seq<char>, TomlTree)>) -> spec_fn(int) -> Option<Mismatch> {
    |i: int| layer_mismatch(es[i].1)
}

/// What is wrong with the profiles.
pub open spec fn profiles_mismatch(t: TomlTree) -> Option<Mismatch> {
    match t {
        TomlTree::Table(_, es) => first_found(layer_part(es), es.len()),
        TomlTree::Moment(p, s) => Some((p, string_mismatch(s, "struct ConfigLayer"@))),
        _ => Some((place_of(t), table_mismatch(t, "a map"@))),
    }
}

/// What is wrong with an entry of a document that is looked at first: the name of the default
/// profile, the profiles, and whatever else is kept for later.
pub open spec fn entry_part(es: Seq<(Seq<char>, TomlTree)>) -> spec_fn(int) -> Option<Mismatch> {
    |i: int|
        if es[i].0 == "default_profile"@ {
            text_problem(es[i].1)
        } else if es[i].0 == "profiles"@ {
            profiles_mismatch(es[i].1)
        } else {
            refused(es[i].1, true)
        }
}

/// What is wrong with an entry of a document that is a setting of the base layer.
pub open spec fn base_part(es: Seq<(Seq<char>, TomlTree)>) -> spec_fn(int) -> Option<Seq<char>> {
    |i: int|
        if is_field(es[i].0) {
            text_mismatch(es[i].1)
        } else {
            None
        }
}

/// What is said of what is wrong with a document. What is wrong with the base layer is told of the
/// whole document.
pub open spec fn document_problem(
    contents: Seq<char>,
    place: Place,
    es: Seq<(Seq<char>, TomlTree)>,
) -> Option<Seq<char>> {
    match first_found(entry_part(es), es.len()) {
        Some((p, m)) => Some(error_text(contents, p, m)),
        None => match first_found(base_part(es), es.len()) {
            Some(m) => Some(error_text(contents, place, m)),
            None => None,
        },
    }
}

/// A place and a message, as plain values.
pub open spec fn mismatch_view(r: Option<(Place, String)>) -> Option<Mismatch> {
    match r {
        Some((p, m)) => Some((p, m@)),
        None => None,
    }
}

/// Where a value stands.
fn find_place(v: &TomlValue) -> (p: Place)
    ensures
        p == place_of(tree(*v)),
{
    match v {
        TomlValue::Text(p, _) => *p,
        TomlValue::Table(p, _) => *p,
        TomlValue::List(p, _) => *p,
        TomlValue::Moment(p, _) => *p,
        TomlValue::Other(p, _) => *p,
    }
}

/// A message for the case that something else than a string is expected.
fn expect(message: &str, what: &str) -> (r: String)
    ensures
        r@ == expecting(message@, what@),
{
    proof {
        reveal_strlit("a string");
    }
    if ends_with(message, "a string") {
        let v: Vec<char> = chars(message);
        let head: String = slice(&v, 0, v.len() - 8);
        assert(head@ =~= message@.take(message@.len() - 8));
        cat2(head.as_str(), what)
    } else {
        message.to_owned()
    }
}

/// What is wrong with a value where a string is expected.
fn find_text_mismatch(v: &TomlValue) -> (r: Option<String>)
    ensures
        match text_mismatch(tree(*v)) {
            Some(m) => r matches Some(s) && s@ == m,
            None => r is None,
        },
{
    match v {
        TomlValue::Text(_, _) => None,
        TomlValue::Table(_, _) => Some("invalid type: map, expected a string".to_owned()),
        TomlValue::Moment(_, _) => Some("invalid type: map, expected a string".to_owned()),
        TomlValue::List(_, _) => Some("invalid type: sequence, expected a string".to_owned()),
        TomlValue::Other(_, m) => Some(m.clone()),
    }
}

/// What is wrong with a value where a string is expected, and where.
fn find_text_problem(v: &TomlValue) -> (r: Option<(Place, String)>)
    ensures
        mismatch_view(r) == text_problem(tree(*v)),
{
    match find_text_mismatch(v) {
        Some(m) => Some((find_place(v), m)),
        None => None,
    }
}

/// What is wrong with a string where something else is expected.
fn render_string_mismatch(s: &str, what: &str) -> (r: String)
    ensures
        r@ == string_mismatch(s@, what@),
{
    cat4("invalid type: string ", quote(s).as_str(), ", expected ", what)
}

/// What is wrong with a value other than a table where one is expected.
fn render_table_mismatch(v: &TomlValue, what: &str) -> (r: String)
    ensures
        r@ == table_mismatch(tree(*v), what@),
{
    match v {
        TomlValue::Text(_, s) => render_string_mismatch(s.as_str(), what),
        TomlValue::Moment(_, s) => render_string_mismatch(s.as_str(), what),
        TomlValue::Other(_, m) => expect(m.as_str(), what),
        _ => cat2("invalid type: sequence, expected ", what),
    }
}

/// What is wrong with a value that is not asked for.
fn find_refused(v: &TomlValue, kept: bool) -> (r: Option<(Place, String)>)
    ensures
        mismatch_view(r) == refused(tree(*v), kept),
    decreases v,
{
    match v {
        TomlValue::Other(p, m) => {
            if !ends_with(m.as_str(), "a string") {
                Some((*p, m.clone()))
            } else if kept && (ends_with(m.as_str(), " as i128, expected a string") || ends_with(
                m.as_str(),
                " as u128, expected a string",
            )) {
                Some((*p, expect(m.as_str(), "any value")))
            } else {
                None
            }
        },
        TomlValue::Table(_, es) => {
            let ghost t = table(es@);
            assert(tree(*v)->Table_1 =~= t);
            for i in 0..es.len()
                invariant
                    t == table(es@),
                    *v matches TomlValue::Table(_, fs) && fs == *es,
                    tree(*v)->Table_1 == t,
                    tree(*v) is Table,
                    refused_entry(t, i as nat, kept) is None,
            {
                assert(decreases_to!(v => es@[i as int].1));
                let found: Option<(Place, String)> = find_refused(&es[i].1, kept);
                assert(t[i as int].1 == tree(es@[i as int].1));
                if found.is_some() {
                    proof {
                        refused_entry_stays(t, (i + 1) as nat, t.len(), kept);
                    }
                    return found;
                }
            }
            None
        },
        TomlValue::List(_, vs) => {
            let ghost t = items(vs@);
            assert(tree(*v)->List_1 =~= t);
            for i in 0..vs.len()
                invariant
                    t == items(vs@),
                    *v matches TomlValue::List(_, ws) && ws == *vs,
                    tree(*v)->List_1 == t,
                    tree(*v) is List,
                    refused_item(t, i as nat, kept) is None,
            {
                assert(decreases_to!(v => vs@[i as int]));
                let found: Option<(Place, String)> = find_refused(&vs[i], kept);
                assert(t[i as int] == tree(vs@[i as int]));
                if found.is_some() {
                    proof {
                        refused_item_stays(t, (i + 1) as nat, t.len(), kept);
                    }
                    return found;
                }
            }
            None
        },
        _ => None,
    }
}

proof fn refused_entry_stays(es: Seq<(Seq<char>, TomlTree)>, m: nat, n: nat, kept: bool)
    requires
        m <= n <= es.len(),
        refused_entry(es, m, kept) is Some,
    ensures
        refused_entry(es, n, kept) == refused_entry(es, m, kept),
    decreases n,
{
    if m < n {
        refused_entry_stays(es, m, (n - 1) as nat, kept);
    }
}

proof fn refused_item_stays(vs: Seq<TomlTree>, m: nat, n: nat, kept: bool)
    requires
        m <= n <= vs.len(),
        refused_item(vs, m, kept) is Some,
    ensures
        refused_item(vs, n, kept) == refused_item(vs, m, kept),
    decreases n,
{
    if m < n {
        refused_item_stays(vs, m, (n - 1) as nat, kept);
    }
}

/// Whether a text names a setting.
fn names_field(name: &str) -> (r: bool)
    ensures
        r == is_field(name@),
{
    for i in 0..FIELD_COUNT
        invariant
            forall|a: int| 0 <= a < i ==> name@ != #[trigger] field_name(a),
    {
        if text_eq(name, field_label(i)) {
            assert(name@ == field_name(i as int));
            return true;
        }
    }
    false
}

/// What is wrong with a profile.
fn find_layer_mismatch(v: &TomlValue) -> (r: Option<(Place, String)>)
    ensures
        mismatch_view(r) == layer_mismatch(tree(*v)),
{
    match v {
        TomlValue::Table(_, es) => {
            let ghost t = table(es@);
            assert(tree(*v)->Table_1 =~= t);
            for i in 0..es.len()
                invariant
                    t == table(es@),
                    tree(*v) is Table,
                    tree(*v)->Table_1 == t,
                    first_found(setting_part(t), i as nat) is None,
            {
                assert(t[i as int] == (es@[i as int].0@, tree(es@[i as int].1)));
                let found: Option<(Place, String)> = if names_field(es[i].0.as_str()) {
                    find_text_problem(&es[i].1)
                } else {
                    find_refused(&es[i].1, false)
                };
                if found.is_some() {
                    proof {
                        first_found_stays(setting_part(t), (i + 1) as nat, t.len());
                    }
                    return found;
                }
            }
            None
        },
        TomlValue::List(_, vs) => {
            let ghost t = items(vs@);
            assert(tree(*v)->List_1 =~= t);
            let n: usize = if vs.len() > FIELD_COUNT {
                FIELD_COUNT
            } else {
                vs.len()
            };
            for i in 0..n
                invariant
                    n <= vs@.len(),
                    n == item_count(t),
                    t == items(vs@),
                    tree(*v) is List,
                    tree(*v)->List_1 == t,
                    first_found(item_part(t), i as nat) is None,
            {
                let found: Option<(Place, String)> = find_text_problem(&vs[i]);
                if found.is_some() {
                    proof {
                        first_found_stays(item_part(t), (i + 1) as nat, n as nat);
                    }
                    return found;
                }
            }
            None
        },
        TomlValue::Moment(_, _) => None,
        _ => Some((find_place(v), render_table_mismatch(v, "struct ConfigLayer"))),
    }
}

/// What is wrong with the profiles.
fn find_profiles_mismatch(v: &TomlValue) -> (r: Option<(Place, String)>)
    ensures
        mismatch_view(r) == profiles_mismatch(tree(*v)),
{
    match v {
        TomlValue::Table(_, es) => {
            let ghost t = table(es@);
            assert(tree(*v)->Table_1 =~= t);
            for i in 0..es.len()
                invariant
                    t == table(es@),
                    tree(*v) is Table,
                    tree(*v)->Table_1 == t,
                    first_found(layer_part(t), i as nat) is None,
            {
                let found: Option<(Place, String)> = find_layer_mismatch(&es[i].1);
                if found.is_some() {
                    proof {
                        first_found_stays(layer_part(t), (i + 1) as nat, t.len());
                    }
                    return found;
                }
            }
            None
        },
        TomlValue::Moment(p, s) => Some(
            (*p, render_string_mismatch(s.as_str(), "struct ConfigLayer")),
        ),
        _ => Some((find_place(v), render_table_mismatch(v, "a map"))),
    }
}

/// What is wrong with an entry of a document that is looked at first.
fn find_entry_mismatch(es: &Vec<(String, TomlValue)>, i: usize) -> (r: Option<(Place, String)>)
    requires
        i < es@.len(),
    ensures
        mismatch_view(r) == entry_part(table(es@))(i as int),
{
    let name: &str = es[i].0.as_str();
    if text_eq(name, "default_profile") {
        find_text_problem(&es[i].1)
    } else if text_eq(name, "profiles") {
        find_profiles_mismatch(&es[i].1)
    } else {
        find_refused(&es[i].1, true)
    }
}

/// What is said of what is wrong with a document.
pub fn check_document(contents: &str, place: Place, es: &Vec<(String, TomlValue)>) -> (r: Option<
    String,
>)
    ensures
        match document_problem(contents@, place, table(es@)) {
            Some(m) => r matches Some(s) && s@ == m,
            None => r is None,
        },
{
    let ghost t = table(es@);
    for i in 0..es.len()
        invariant
            t == table(es@),
            first_found(entry_part(t), i as nat) is None,
    {
        if let Some((p, m)) = find_entry_mismatch(es, i) {
            proof {
                first_found_stays(entry_part(t), (i + 1) as nat, t.len());
            }
            return Some(render_error(contents, p, m.as_str()));
        }
    }
    for i in 0..es.len()
        invariant
            t == table(es@),
            first_found(entry_part(t), t.len()) is None,
            first_found(base_part(t), i as nat) is None,
    {
        assert(t[i as int] == (es@[i as int].0@, tree(es@[i as int].1)));
        if names_field(es[i].0.as_str()) {
            if let Some(m) = find_text_mismatch(&es[i].1) {
                proof {
                    first_found_stays(base_part(t), (i + 1) as nat, t.len());
                }
                return Some(render_error(contents, place, m.as_str()));
            }
        }
    }
    None
}

} // verus!
