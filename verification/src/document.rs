//! TOML and INI documents as plain values.

use std::collections::BTreeMap;

use serde::Deserialize;
use toml::de::{DeValue, ValueDeserializer};
use toml::Spanned;
use vstd::prelude::*;
use vstd::string::*;
use vstd::utf8::encode_utf8;

use crate::gather::reversed;
use crate::text::compose::{cat2, cat3, chars, slice};
use crate::text::order::text_eq;
use crate::text::scan::has_suffix;

verus! {

/// A value of the `toml` crate as it stands in a document.
#[verifier::external_type_specification]
#[verifier::external_body]
pub struct ExDeValue<'i>(toml::de::DeValue<'i>);

/// A value of the `toml` crate with its place.
#[verifier::external_type_specification]
#[verifier::external_body]
#[verifier::reject_recursive_types(T)]
pub struct ExSpanned<T>(toml::Spanned<T>);

/// Where something stands in a document: from a byte to a byte.
#[derive(Clone, Copy, Debug, PartialEq, Eq, Structural)]
pub struct Place {
    /// The first byte.
    pub start: usize,
    /// The byte behind the last one.
    pub end: usize,
}

/// A TOML value with its place.
#[derive(Debug)]
pub enum TomlValue {
    /// A string.
    Text(Place, String),
    /// A table, with its keys.
    Table(Place, Vec<(String, TomlValue)>),
    /// A list.
    List(Place, Vec<TomlValue>),
    /// A date, a time or both.
    Moment(Place, String),
    /// Anything else, with what is wrong with it where a string is expected.
    Other(Place, String),
}

/// A TOML value as character sequences.
pub enum TomlTree {
    /// See [`TomlValue::Text`].
    Text(Place, Seq<char>),
    /// See [`TomlValue::Table`].
    Table(Place, Seq<(Seq<char>, TomlTree)>),
    /// See [`TomlValue::List`].
    List(Place, Seq<TomlTree>),
    /// See [`TomlValue::Moment`].
    Moment(Place, Seq<char>),
    /// See [`TomlValue::Other`].
    Other(Place, Seq<char>),
}

/// A value as character sequences.
pub open spec fn tree(v: TomlValue) -> TomlTree
    decreases v,
{
    match v {
        TomlValue::Text(p, s) => TomlTree::Text(p, s@),
        TomlValue::Moment(p, s) => TomlTree::Moment(p, s@),
        TomlValue::Other(p, s) => TomlTree::Other(p, s@),
        TomlValue::Table(p, es) => TomlTree::Table(
            p,
            Seq::new(
                es@.len(),
                |i: int|
                    if 0 <= i < es@.len() {
                        (es@[i].0@, tree(es@[i].1))
                    } else {
                        arbitrary()
                    },
            ),
        ),
        TomlValue::List(p, vs) => TomlTree::List(
            p,
            Seq::new(
                vs@.len(),
                |i: int|
                    if 0 <= i < vs@.len() {
                        tree(vs@[i])
                    } else {
                        arbitrary()
                    },
            ),
        ),
    }
}

/// The entries of a table as character sequences.
pub open spec fn table(es: Seq<(String, TomlValue)>) -> Seq<(Seq<char>, TomlTree)> {
    Seq::new(es.len(), |i: int| (es[i].0@, tree(es[i].1)))
}

/// The items of a list as character sequences.
pub open spec fn items(vs: Seq<TomlValue>) -> Seq<TomlTree> {
    Seq::new(vs.len(), |i: int| tree(vs[i]))
}

/// What a value of the `toml` crate holds and where it stands: the string of a string, the entries
/// of a table in the order in which the crate walks them, the items of a list, the text of a date
/// or time, and of any other value the message of the error that `toml::de::ValueDeserializer`
/// gives where a string is asked for.
pub uninterp spec fn toml_tree(v: toml::Spanned<toml::de::DeValue>) -> TomlTree;

/// What `toml::de::DeTable::parse` reads from a document, or the text of its error.
pub uninterp spec fn toml_document(contents: Seq<char>) -> core::result::Result<
    TomlTree,
    Seq<char>,
>;

/// A value of the `toml` crate, opened.
#[derive(Debug)]
pub enum TomlNode<'a> {
    /// A string.
    Text(Place, String),
    /// A table.
    Table(Place, Vec<(String, toml::Spanned<toml::de::DeValue<'a>>)>),
    /// A list.
    List(Place, Vec<toml::Spanned<toml::de::DeValue<'a>>>),
    /// A date, a time or both.
    Moment(Place, String),
    /// Anything else.
    Other(Place, String),
}

/// The entries of an opened table.
pub open spec fn toml_entries(es: Seq<(String, toml::Spanned<toml::de::DeValue>)>) -> Seq<
    (Seq<char>, TomlTree),
> {
    Seq::new(es.len(), |i: int| (es[i].0@, toml_tree(es[i].1)))
}

/// The items of an opened list.
pub open spec fn toml_items(vs: Seq<toml::Spanned<toml::de::DeValue>>) -> Seq<TomlTree> {
    Seq::new(vs.len(), |i: int| toml_tree(vs[i]))
}

/// `toml::de::DeTable::parse` reads a document, which is a table, or gives an error, here as its
/// text.
#[verifier::external_body]
fn read_toml<'a>(contents: &'a str) -> (r: core::result::Result<
    (Place, Vec<(String, toml::Spanned<toml::de::DeValue<'a>>)>),
    String,
>)
    ensures
        match toml_document(contents@) {
            Ok(t) => r matches Ok((p, es)) && t == TomlTree::Table(p, toml_entries(es@)),
            Err(e) => r matches Err(s) && s@ == e,
        },
{
    match toml::de::DeTable::parse(contents) {
        Ok(t) => {
            let place = Place { start: t.span().start, end: t.span().end };
            let es = t.into_inner().into_iter();
            Ok((place, es.map(|(k, v)| (k.into_inner().into_owned(), v)).collect()))
        },
        Err(e) => Err(e.to_string()),
    }
}

/// The variants of `toml::de::DeValue`: a string, a table, a list, a date or time, or another kind
/// of value, of which `toml::de::ValueDeserializer` says why it is no string.
#[verifier::external_body]
fn open_value<'a>(v: toml::Spanned<toml::de::DeValue<'a>>) -> (r: TomlNode<'a>)
    ensures
        match toml_tree(v) {
            TomlTree::Text(p, s) => r matches TomlNode::Text(q, t) && q == p && t@ == s,
            TomlTree::Table(p, es) => r matches TomlNode::Table(q, t) && q == p && toml_entries(t@)
                == es,
            TomlTree::List(p, vs) => r matches TomlNode::List(q, t) && q == p && toml_items(t@)
                == vs,
            TomlTree::Moment(p, s) => r matches TomlNode::Moment(q, t) && q == p && t@ == s,
            TomlTree::Other(p, s) => r matches TomlNode::Other(q, t) && q == p && t@ == s,
        },
{
    let p = Place { start: v.span().start, end: v.span().end };
    match v.into_inner() {
        DeValue::String(s) => TomlNode::Text(p, s.into_owned()),
        DeValue::Table(t) => TomlNode::Table(
            p,
            t.into_iter().map(|(k, v)| (k.into_inner().into_owned(), v)).collect(),
        ),
        DeValue::Array(vs) => TomlNode::List(p, vs.into_iter().collect()),
        DeValue::Datetime(d) => TomlNode::Moment(p, d.to_string()),
        other => {
            let read = String::deserialize(ValueDeserializer::from(Spanned::new(0..0, other)));
            TomlNode::Other(p, read.unwrap_or_else(|e| e.message().to_owned()))
        },
    }
}

/// What `toml::de::Error` shows where a string is expected and `true` stands at a place of a
/// document.
pub uninterp spec fn toml_shown(contents: Seq<char>, start: nat, end: nat) -> Seq<char>;

/// `toml::de::ValueDeserializer` gives an error where a string is asked for and the value is
/// `true`. The error shows the place of the value in a document, and then its message.
#[verifier::external_body]
fn show_error(contents: &str, start: usize, end: usize) -> (r: String)
    requires
        start <= end <= encode_utf8(contents@).len(),
    ensures
        r@ == toml_shown(contents@, start as nat, end as nat),
        has_suffix(r@, "invalid type: boolean `true`, expected a string\n"@),
{
    let v = Spanned::new(start..end, DeValue::Boolean(true));
    match String::deserialize(ValueDeserializer::from(v)) {
        Ok(s) => s,
        Err(mut e) => {
            e.set_input(Some(contents));
            e.to_string()
        },
    }
}

/// What is shown of a document before the message of an error at a place: the line and the column,
/// and the line with a mark.
pub open spec fn toml_context(contents: Seq<char>, start: nat, end: nat) -> Seq<char> {
    let shown = toml_shown(contents, start, end);
    shown.take(shown.len() - "invalid type: boolean `true`, expected a string\n"@.len())
}

/// What is said of an error at a place of a document: its context, where the place lies in the
/// document, and the message.
pub open spec fn error_text(contents: Seq<char>, place: Place, message: Seq<char>) -> Seq<char> {
    (if place.start <= place.end <= encode_utf8(contents).len() {
        toml_context(contents, place.start as nat, place.end as nat)
    } else {
        Seq::empty()
    }) + message + "\n"@
}

/// What is said of an error at a place of a document.
pub(crate) fn render_error(contents: &str, place: Place, message: &str) -> (r: String)
    ensures
        r@ == error_text(contents@, place, message@),
{
    if place.start <= place.end && place.end <= contents.as_bytes().len() {
        let shown: Vec<char> = chars(show_error(contents, place.start, place.end).as_str());
        let own: &str = "invalid type: boolean `true`, expected a string\n";
        let context: String = slice(&shown, 0, shown.len() - own.unicode_len());
        proof {
            let (start, end) = (place.start as nat, place.end as nat);
            assert(context@ =~= toml_context(contents@, start, end));
        }
        cat3(context.as_str(), message, "\n")
    } else {
        let r: String = cat2(message, "\n");
        assert(r@ =~= error_text(contents@, place, message@));
        r
    }
}

/// Converts the entries of an opened table.
fn plain_entries(es: Vec<(String, toml::Spanned<toml::de::DeValue>)>) -> (r: Vec<(String, TomlValue)>)
    ensures
        table(r@) == toml_entries(es@),
    decreases toml_entries(es@), 1nat,
{
    let mut back: Vec<(String, TomlValue)> = Vec::new();
    let mut rest: Vec<(String, toml::Spanned<toml::de::DeValue>)> = es;
    let ghost all = toml_entries(es@);
    let ghost n = es@.len();
    while rest.len() > 0
        invariant
            n == es@.len(),
            all == toml_entries(es@),
            rest@.len() + back@.len() == n,
            rest@ == es@.take(rest@.len() as int),
            forall|k: int|
                0 <= k < back@.len() ==> {
                    &&& (#[trigger] back@[k]).0@ == all[n - 1 - k].0
                    &&& tree(back@[k].1) == all[n - 1 - k].1
                },
        decreases rest@.len(),
    {
        let ghost before = rest@;
        match rest.pop() {
            Some((k, v)) => {
                proof {
                    assert(before.last() == es@[before.len() - 1]);
                    assert(all[before.len() - 1].1 == toml_tree(v));
                    assert(rest@ =~= es@.take(rest@.len() as int));
                }
                assert(decreases_to!(all => toml_tree(v)));
                let value: TomlValue = plain_value(v);
                back.push((k, value));
            },
            None => {},
        }
    }
    let ghost ready = back@;
    let r: Vec<(String, TomlValue)> = reversed(back);
    assert forall|i: int| 0 <= i < n implies table(r@)[i] == all[i] by {
        assert(r@[i] == ready[n - 1 - i]);
    }
    assert(table(r@) =~= all);
    r
}

/// Converts the items of an opened list.
fn plain_items(vs: Vec<toml::Spanned<toml::de::DeValue>>) -> (r: Vec<TomlValue>)
    ensures
        items(r@) == toml_items(vs@),
    decreases toml_items(vs@), 1nat,
{
    let mut back: Vec<TomlValue> = Vec::new();
    let mut rest: Vec<toml::Spanned<toml::de::DeValue>> = vs;
    let ghost all = toml_items(vs@);
    let ghost n = vs@.len();
    while rest.len() > 0
        invariant
            n == vs@.len(),
            all == toml_items(vs@),
            rest@.len() + back@.len() == n,
            rest@ == vs@.take(rest@.len() as int),
            forall|k: int| 0 <= k < back@.len() ==> tree(#[trigger] back@[k]) == all[n - 1 - k],
        decreases rest@.len(),
    {
        let ghost before = rest@;
        match rest.pop() {
            Some(v) => {
                proof {
                    assert(before.last() == vs@[before.len() - 1]);
                    assert(all[before.len() - 1] == toml_tree(v));
                    assert(rest@ =~= vs@.take(rest@.len() as int));
                }
                assert(decreases_to!(all => toml_tree(v)));
                let value: TomlValue = plain_value(v);
                back.push(value);
            },
            None => {},
        }
    }
    let ghost ready = back@;
    let r: Vec<TomlValue> = reversed(back);
    assert forall|i: int| 0 <= i < n implies items(r@)[i] == all[i] by {
        assert(r@[i] == ready[n - 1 - i]);
    }
    assert(items(r@) =~= all);
    r
}

/// Converts a value.
fn plain_value(v: toml::Spanned<toml::de::DeValue>) -> (r: TomlValue)
    ensures
        tree(r) == toml_tree(v),
    decreases toml_tree(v), 0nat,
{
    match open_value(v) {
        TomlNode::Text(p, s) => TomlValue::Text(p, s),
        TomlNode::Moment(p, s) => TomlValue::Moment(p, s),
        TomlNode::Other(p, s) => TomlValue::Other(p, s),
        TomlNode::Table(p, es) => {
            let ghost t = toml_entries(es@);
            assert(decreases_to!(toml_tree(v) => t));
            let entries: Vec<(String, TomlValue)> = plain_entries(es);
            let r = TomlValue::Table(p, entries);
            assert(tree(r)->Table_1 =~= table(entries@));
            r
        },
        TomlNode::List(p, vs) => {
            let ghost t = toml_items(vs@);
            assert(decreases_to!(toml_tree(v) => t));
            let all: Vec<TomlValue> = plain_items(vs);
            let r = TomlValue::List(p, all);
            assert(tree(r)->List_1 =~= items(all@));
            r
        },
    }
}

/// Whether no key occurs twice.
pub open spec fn keys_differ(es: Seq<(String, String)>) -> bool {
    forall|i: int, j: int|
        0 <= i < j < es.len() ==> (#[trigger] es[i]).0@ != (#[trigger] es[j]).0@
}

/// Whether a document is a table of strings.
pub open spec fn is_text_table(
    document: core::result::Result<TomlTree, Seq<char>>,
    entries: Seq<(Seq<char>, Seq<char>)>,
) -> bool {
    &&& document matches Ok(TomlTree::Table(_, t))
    &&& t.len() == entries.len()
    &&& forall|i: int|
        0 <= i < t.len() ==> (#[trigger] t[i]).0 == entries[i].0 && (t[i].1 matches TomlTree::Text(
            _,
            s,
        ) && s == entries[i].1)
}

/// Entries of strings.
pub open spec fn text_pairs(es: Seq<(String, String)>) -> Seq<(Seq<char>, Seq<char>)> {
    Seq::new(es.len(), |i: int| (es[i].0@, es[i].1@))
}

/// The document that `toml::to_string` writes for a table of strings, or the text of its error.
pub uninterp spec fn toml_written(entries: Seq<(Seq<char>, Seq<char>)>) -> core::result::Result<
    Seq<char>,
    Seq<char>,
>;

/// `toml::to_string` writes a table of strings as a document, or gives an error, here as its
/// text. Reading the document with `toml::de::DeTable::parse` gives the table back.
#[verifier::external_body]
pub(crate) fn write_toml(es: &Vec<(String, String)>) -> (r: core::result::Result<String, String>)
    ensures
        match toml_written(text_pairs(es@)) {
            Ok(t) => r matches Ok(s) && s@ == t,
            Err(e) => r matches Err(s) && s@ == e,
        },
        keys_differ(es@) ==> (r matches Ok(s) ==> is_text_table(
            toml_document(s@),
            text_pairs(es@),
        )),
{
    let t: toml::Table = es
        .iter()
        .map(|(k, v)| (k.to_owned(), toml::Value::String(v.to_owned())))
        .collect();
    toml::to_string(&t).map_err(|e| e.to_string())
}

/// Reads a TOML document: where it stands, and its entries.
pub fn parse_toml_document(contents: &str) -> (r: core::result::Result<
    (Place, Vec<(String, TomlValue)>),
    String,
>)
    ensures
        match toml_document(contents@) {
            Ok(t) => r matches Ok((p, es)) && t == TomlTree::Table(p, table(es@)),
            Err(e) => r matches Err(s) && s@ == e,
        },
{
    match read_toml(contents) {
        Ok((p, es)) => Ok((p, plain_entries(es))),
        Err(e) => Err(e),
    }
}

/// The first entry of a table under a key.
pub open spec fn lookup<V>(es: Seq<(Seq<char>, V)>, key: Seq<char>) -> Option<V>
    decreases es.len(),
{
    if es.len() == 0 {
        None
    } else if es[0].0 == key {
        Some(es[0].1)
    } else {
        lookup(es.drop_first(), key)
    }
}

/// The first entry under a key is the one found.
pub proof fn lookup_is<V>(es: Seq<(Seq<char>, V)>, key: Seq<char>, i: int)
    requires
        0 <= i <= es.len(),
        i < es.len() ==> es[i].0 == key,
        forall|k: int| 0 <= k < i ==> (#[trigger] es[k]).0 != key,
    ensures
        lookup(es, key) == (if i < es.len() {
            Some(es[i].1)
        } else {
            None
        }),
    decreases es.len(),
{
    if i > 0 {
        assert(es[0].0 != key);
        let t = es.drop_first();
        assert forall|k: int| 0 <= k < i - 1 implies (#[trigger] t[k]).0 != key by {
            assert(t[k] == es[k + 1]);
        }
        lookup_is(t, key, i - 1);
    }
}

/// The value of a table under a key.
pub fn find_value<'a>(es: &'a Vec<(String, TomlValue)>, key: &str) -> (r: Option<&'a TomlValue>)
    ensures
        match lookup(table(es@), key@) {
            Some(t) => r matches Some(v) && tree(*v) == t && exists|i: int|
                0 <= i < es@.len() && #[trigger] es@[i].1 == *v,
            None => r is None,
        },
{
    for i in 0..es.len()
        invariant
            forall|k: int| 0 <= k < i ==> (#[trigger] table(es@)[k]).0 != key@,
    {
        if text_eq(es[i].0.as_str(), key) {
            proof {
                lookup_is(table(es@), key@, i as int);
                assert(es@[i as int].1 == es@[i as int].1);
            }
            return Some(&es[i].1);
        }
    }
    proof {
        lookup_is(table(es@), key@, es@.len() as int);
    }
    None
}

/// A section of an INI document: its name, and its variables with their values.
pub type IniSection = (String, Vec<(String, String)>);

/// The variables of a section as character sequences.
pub open spec fn ini_variables(es: Seq<(String, String)>) -> Seq<(Seq<char>, Seq<char>)> {
    Seq::new(es.len(), |i: int| (es[i].0@, es[i].1@))
}

/// Sections as character sequences.
pub open spec fn ini_sections(es: Seq<IniSection>) -> Seq<
    (Seq<char>, Seq<(Seq<char>, Seq<char>)>),
> {
    Seq::new(es.len(), |i: int| (es[i].0@, ini_variables(es[i].1@)))
}

/// What `serde_ini::from_str` reads from a document as sections of variables, in the order of
/// their names, or the text of its error.
pub uninterp spec fn ini_document(contents: Seq<char>) -> core::result::Result<
    Seq<(Seq<char>, Seq<(Seq<char>, Seq<char>)>)>,
    Seq<char>,
>;

/// `serde_ini::from_str` reads a document as a map from section names to maps from variables to
/// values, or gives an error, here as its text.
#[verifier::external_body]
pub(crate) fn read_ini(contents: &str) -> (r: core::result::Result<Vec<IniSection>, String>)
    ensures
        match ini_document(contents@) {
            Ok(t) => r matches Ok(es) && ini_sections(es@) == t,
            Err(e) => r matches Err(s) && s@ == e,
        },
{
    match serde_ini::from_str::<BTreeMap<String, BTreeMap<String, String>>>(contents) {
        Ok(m) => Ok(m.into_iter().map(|(k, v)| (k, v.into_iter().collect())).collect()),
        Err(e) => Err(e.to_string()),
    }
}

/// The value of a variable.
pub fn find_variable<'a>(es: &'a Vec<(String, String)>, key: &str) -> (r: Option<&'a String>)
    ensures
        match lookup(ini_variables(es@), key@) {
            Some(t) => r matches Some(v) && v@ == t,
            None => r is None,
        },
{
    for i in 0..es.len()
        invariant
            forall|k: int| 0 <= k < i ==> (#[trigger] ini_variables(es@)[k]).0 != key@,
    {
        if text_eq(es[i].0.as_str(), key) {
            proof {
                lookup_is(ini_variables(es@), key@, i as int);
            }
            return Some(&es[i].1);
        }
    }
    proof {
        lookup_is(ini_variables(es@), key@, es@.len() as int);
    }
    None
}

/// The variables of a section.
pub fn find_section<'a>(es: &'a Vec<IniSection>, name: &str) -> (r: Option<
    &'a Vec<(String, String)>,
>)
    ensures
        match lookup(ini_sections(es@), name@) {
            Some(t) => r matches Some(v) && ini_variables(v@) == t,
            None => r is None,
        },
{
    for i in 0..es.len()
        invariant
            forall|k: int| 0 <= k < i ==> (#[trigger] ini_sections(es@)[k]).0 != name@,
    {
        if text_eq(es[i].0.as_str(), name) {
            proof {
                lookup_is(ini_sections(es@), name@, i as int);
            }
            return Some(&es[i].1);
        }
    }
    proof {
        lookup_is(ini_sections(es@), name@, es@.len() as int);
    }
    None
}

} // verus!
