//! JSON documents.

use vstd::prelude::*;
use vstd::string::*;

use crate::text::compose::texts;
use crate::text::order::text_eq;
use crate::text::scan::{contains_text, has_text};

verus! {

/// A member of an object. Where its value is an object too, the names of that object's members.
#[derive(Debug)]
pub struct JsonMember {
    /// The name.
    pub name: String,
    /// The names of the value's members, where the value is an object.
    pub members: Option<Vec<String>>,
}

/// A member as plain values.
pub type Member = (Seq<char>, Option<Seq<Seq<char>>>);

impl View for JsonMember {
    type V = Member;

    open spec fn view(&self) -> Member {
        (
            self.name@,
            match self.members {
                Some(v) => Some(texts(v@)),
                None => None,
            },
        )
    }
}

/// Members as plain values.
pub open spec fn member_list(v: Seq<JsonMember>) -> Seq<Member> {
    Seq::new(v.len(), |i: int| v[i]@)
}

/// The members of the object that `serde_json::from_str` reads from a text; nothing where it
/// refuses the text or reads something else than an object.
pub uninterp spec fn json_members(text: Seq<char>) -> Option<Seq<Member>>;

/// `serde_json::from_str` reads a document. What it reads is taken apart to the names of members,
/// two levels deep.
#[verifier::external_body]
fn read_json(text: &str) -> (r: Option<Vec<JsonMember>>)
    ensures
        r is Some == json_members(text@) is Some,
        r is Some ==> member_list(r->0@) == json_members(text@)->0,
{
    let value: serde_json::Value = serde_json::from_str(text).ok()?;
    let object: &serde_json::Map<String, serde_json::Value> = value.as_object()?;
    let names = |v: &serde_json::Value| v.as_object().map(|m| m.keys().cloned().collect());
    Some(
        object.iter().map(|(k, v)| JsonMember { name: k.clone(), members: names(v) }).collect(),
    )
}

/// Whether an object has a member of a name.
pub open spec fn has_member(list: Seq<Member>, name: Seq<char>) -> bool {
    exists|i: int| 0 <= i < list.len() && (#[trigger] list[i]).0 == name
}

/// Whether an object has a member whose value has a member of a name.
pub open spec fn has_inner(list: Seq<Member>, section: Seq<char>, name: Seq<char>) -> bool {
    exists|i: int|
        0 <= i < list.len() && (#[trigger] list[i]).0 == section && list[i].1 is Some && has_text(
            list[i].1->0,
            name,
        )
}

/// Whether a package names something: as a member, or among what it depends on.
pub open spec fn names_package(list: Seq<Member>, name: Seq<char>) -> bool {
    has_member(list, name) || has_inner(list, "dependencies"@, name) || has_inner(
        list,
        "devDependencies"@,
        name,
    ) || has_inner(list, "peerDependencies"@, name)
}

/// Whether a text is a package that names something.
pub open spec fn mentions(text: Seq<char>, name: Seq<char>) -> bool {
    json_members(text) matches Some(list) && names_package(list, name)
}

/// Whether an object has a member whose value has a member of a name.
fn find_inner(v: &Vec<JsonMember>, section: &str, name: &str) -> (r: bool)
    ensures
        r == has_inner(member_list(v@), section@, name@),
{
    let ghost list = member_list(v@);
    for i in 0..v.len()
        invariant
            list == member_list(v@),
            forall|k: int|
                0 <= k < i ==> !((#[trigger] list[k]).0 == section@ && list[k].1 is Some
                    && has_text(list[k].1->0, name@)),
    {
        assert(list[i as int] == v@[i as int]@);
        if text_eq(v[i].name.as_str(), section) {
            if let Some(inner) = &v[i].members {
                if contains_text(inner, name) {
                    return true;
                }
            }
        }
    }
    false
}

/// Whether a package names something: as a member, or among what it depends on.
pub fn package_names(v: &Vec<JsonMember>, name: &str) -> (r: bool)
    ensures
        r == names_package(member_list(v@), name@),
{
    let ghost list = member_list(v@);
    for i in 0..v.len()
        invariant
            list == member_list(v@),
            forall|k: int| 0 <= k < i ==> (#[trigger] list[k]).0 != name@,
    {
        assert(list[i as int] == v@[i as int]@);
        if text_eq(v[i].name.as_str(), name) {
            return true;
        }
    }
    find_inner(v, "dependencies", name) || find_inner(v, "devDependencies", name) || find_inner(
        v,
        "peerDependencies",
        name,
    )
}

/// Whether a text is a package that names something.
pub fn package_json_mentions(text: &str, name: &str) -> (r: bool)
    ensures
        r == mentions(text@, name@),
{
    match read_json(text) {
        Some(v) => package_names(&v, name),
        None => false,
    }
}

} // verus!
