//! Tests put together by a part of their names.

use vstd::prelude::*;
use vstd::string::*;

use crate::pattern::{regex_captures, regex_error, Match, Regexp};
use crate::text::compose::{chars, slice, texts};
use crate::text::order::{text_eq, text_less, text_lt, text_lt_total, text_lt_transitive};
use crate::text::scan::{has_prefix, starts_with};

verus! {

broadcast use crate::text::compose::texts_push;

/// The group that a name belongs to: the first group of the pattern where it has one, else what
/// the pattern matches, else the name itself.
pub open spec fn group_key(pattern: Seq<char>, name: Seq<char>) -> Seq<char> {
    let found = regex_captures(pattern, name);
    if found.len() == 0 {
        name
    } else {
        let groups = found[0].groups;
        if groups.len() > 1 && groups[1] is Some {
            groups[1]->0
        } else if groups.len() > 0 && groups[0] is Some {
            groups[0]->0
        } else {
            name
        }
    }
}

/// Groups by key, each with its members.
pub type GroupList = Seq<(Seq<char>, Seq<Seq<char>>)>;

/// `groups` with a name added to the group of a key, groups in the order of their keys.
pub open spec fn with_member(groups: GroupList, key: Seq<char>, name: Seq<char>) -> GroupList
    decreases groups.len(),
{
    if groups.len() == 0 || text_lt(key, groups[0].0) {
        seq![(key, seq![name])] + groups
    } else if groups[0].0 == key {
        groups.update(0, (key, groups[0].1.push(name)))
    } else {
        seq![groups[0]] + with_member(groups.drop_first(), key, name)
    }
}

/// The groups of the names.
pub open spec fn groups_of(pattern: Seq<char>, names: Seq<Seq<char>>) -> GroupList
    decreases names.len(),
{
    if names.len() == 0 {
        Seq::empty()
    } else {
        with_member(
            groups_of(pattern, names.drop_last()),
            group_key(pattern, names.last()),
            names.last(),
        )
    }
}

/// A group with its members.
#[derive(Debug)]
pub struct TestGroup {
    /// What the members have in common.
    pub key: String,
    /// The names of the members.
    pub tests: Vec<String>,
}

/// Groups as character sequences.
pub open spec fn group_list(v: Seq<TestGroup>) -> GroupList {
    Seq::new(v.len(), |i: int| (v[i].key@, texts(v[i].tests@)))
}

/// The group that a name belongs to.
pub fn key_of(re: &Regexp, name: &str) -> (r: String)
    ensures
        r@ == group_key(re@, name@),
{
    let found: Vec<Match> = re.captures(name);
    let ghost all = regex_captures(re@, name@);
    if found.len() == 0 {
        assert(all.len() == 0);
        return name.to_owned();
    }
    assert(all[0] == found@[0]@);
    let groups: &Vec<Option<String>> = &found[0].groups;
    if groups.len() > 1 {
        if let Some(s) = &groups[1] {
            return s.clone();
        }
    }
    match &groups[0] {
        Some(s) => s.clone(),
        None => name.to_owned(),
    }
}

/// Where a group with a key stands or would stand: the groups before the position have keys
/// before it.
proof fn with_member_at(groups: GroupList, key: Seq<char>, name: Seq<char>, p: int)
    requires
        0 <= p <= groups.len(),
        forall|i: int| 0 <= i < p ==> (#[trigger] groups[i]).0 != key && !text_lt(key, groups[i].0),
        p < groups.len() ==> groups[p].0 == key || text_lt(key, groups[p].0),
    ensures
        with_member(groups, key, name) == (if p < groups.len() && groups[p].0 == key && !text_lt(
            key,
            groups[p].0,
        ) {
            groups.update(p, (key, groups[p].1.push(name)))
        } else {
            groups.insert(p, (key, seq![name]))
        }),
    decreases groups.len(),
{
    if p == 0 {
        if groups.len() == 0 || text_lt(key, groups[0].0) {
            assert(seq![(key, seq![name])] + groups =~= groups.insert(0, (key, seq![name])));
        }
    } else {
        let rest = groups.drop_first();
        assert(groups[0].0 != key && !text_lt(key, groups[0].0));
        assert forall|i: int| 0 <= i < p - 1 implies (#[trigger] rest[i]).0 != key && !text_lt(
            key,
            rest[i].0,
        ) by {
            assert(rest[i] == groups[i + 1]);
        }
        with_member_at(rest, key, name, p - 1);
        let w = with_member(groups, key, name);
        if p < groups.len() && groups[p].0 == key && !text_lt(key, groups[p].0) {
            assert(w =~= groups.update(p, (key, groups[p].1.push(name))));
        } else {
            assert(w =~= groups.insert(p, (key, seq![name])));
        }
    }
}

/// Adds a name to the group of a key.
fn add_member(groups: &mut Vec<TestGroup>, key: String, name: &str)
    ensures
        group_list(final(groups)@) == with_member(group_list(old(groups)@), key@, name@),
{
    let ghost before = group_list(groups@);
    let ghost k = key@;
    let mut p: usize = 0;
    while p < groups.len() && !text_eq(groups[p].key.as_str(), key.as_str()) && !text_less(
        key.as_str(),
        groups[p].key.as_str(),
    )
        invariant
            p <= groups@.len(),
            before == group_list(groups@),
            forall|i: int|
                0 <= i < p ==> (#[trigger] before[i]).0 != key@ && !text_lt(key@, before[i].0),
        decreases groups@.len() - p,
    {
        assert(before[p as int].0 == groups@[p as int].key@);
        p += 1;
    }
    proof {
        if p < groups@.len() {
            assert(before[p as int].0 == groups@[p as int].key@);
        }
        with_member_at(before, k, name@, p as int);
    }
    if p < groups.len() && !text_less(key.as_str(), groups[p].key.as_str()) {
        let ghost old_groups = groups@;
        groups[p].tests.push(name.to_owned());
        proof {
            let g = groups@[p as int];
            assert(groups@ =~= old_groups.update(p as int, g));
            assert(texts(g.tests@) =~= texts(old_groups[p as int].tests@).push(name@));
            assert(group_list(groups@) =~= before.update(
                p as int,
                (k, before[p as int].1.push(name@)),
            ));
        }
    } else {
        let mut tests: Vec<String> = Vec::new();
        tests.push(name.to_owned());
        let ghost old_groups = groups@;
        groups.insert(p, TestGroup { key, tests });
        proof {
            assert(texts(tests@) =~= seq![name@]);
            assert(group_list(groups@) =~= before.insert(p as int, (k, seq![name@])));
        }
    }
}

/// Puts names together by the part of them that a pattern matches. Groups come in the order of
/// their keys, members in the order of the names.
pub fn group_tests(names: &Vec<String>, pattern: &str) -> (r: core::result::Result<
    Vec<TestGroup>,
    String,
>)
    ensures
        match regex_error(pattern@) {
            Some(e) => r matches Err(s) && s@ == e,
            None => r matches Ok(g) && group_list(g@) == groups_of(pattern@, texts(names@)),
        },
{
    let re: Regexp = match Regexp::compile(pattern) {
        Ok(re) => re,
        Err(e) => {
            return Err(e);
        },
    };
    let ghost all = texts(names@);
    let mut groups: Vec<TestGroup> = Vec::new();
    assert(group_list(groups@) =~= groups_of(pattern@, all.take(0)));
    for i in 0..names.len()
        invariant
            re@ == pattern@,
            all == texts(names@),
            group_list(groups@) == groups_of(pattern@, all.take(i as int)),
    {
        assert(all.take(i + 1).drop_last() =~= all.take(i as int));
        let key: String = key_of(&re, names[i].as_str());
        add_member(&mut groups, key, names[i].as_str());
    }
    assert(all.take(names@.len() as int) =~= all);
    Ok(groups)
}

/// Whether a character separates the parts of a test name.
pub open spec fn is_separator(c: char) -> bool {
    c == ':' || c == '.' || c == '/'
}

/// How many separators stand in a name from position `from` on.
pub open spec fn separators_from(name: Seq<char>, from: int) -> nat
    decreases name.len() - from,
{
    if 0 <= from < name.len() && is_separator(name[from]) {
        1 + separators_from(name, from + 1)
    } else {
        0
    }
}

/// The key of a group with the separators that follow it in a name.
pub open spec fn key_with_separators(key: Seq<char>, name: Seq<char>) -> Seq<char> {
    name.take(key.len() as int + separators_from(name, key.len() as int))
}

/// The start that all names have in common where they all belong to one group: the key of the
/// group and the separators that follow it in the first name.
pub open spec fn common_prefix(names: Seq<Seq<char>>, pattern: Option<Seq<char>>) -> Option<
    Seq<char>,
> {
    match pattern {
        None => None,
        Some(p) => if names.len() == 0 || regex_error(p) is Some {
            None
        } else {
            let key = group_key(p, names[0]);
            let prefix = key_with_separators(key, names[0]);
            if key.len() > 0 && key != names[0] && has_prefix(names[0], key) && forall|i: int|
                0 <= i < names.len() ==> group_key(p, #[trigger] names[i]) == key && has_prefix(
                    names[i],
                    prefix,
                ) {
                Some(prefix)
            } else {
                None
            }
        },
    }
}

/// The start that all names have in common where they all belong to one group.
pub fn common_group_prefix(names: &Vec<String>, pattern: Option<&str>) -> (r: Option<String>)
    ensures
        match common_prefix(
            texts(names@),
            match pattern {
                Some(p) => Some(p@),
                None => None,
            },
        ) {
            Some(p) => r matches Some(s) && s@ == p,
            None => r is None,
        },
{
    let p: &str = match pattern {
        Some(p) => p,
        None => {
            return None;
        },
    };
    if names.len() == 0 {
        return None;
    }
    let re: Regexp = match Regexp::compile(p) {
        Ok(re) => re,
        Err(_) => {
            return None;
        },
    };
    let ghost all = texts(names@);
    let key: String = key_of(&re, names[0].as_str());
    let first: Vec<char> = chars(names[0].as_str());
    assert(all[0] == first@);
    if key.as_str().is_empty() || text_eq(key.as_str(), names[0].as_str()) || !starts_with(
        names[0].as_str(),
        key.as_str(),
    ) {
        return None;
    }
    let n: usize = chars(key.as_str()).len();
    let mut end: usize = n;
    while end < first.len() && (first[end] == ':' || first[end] == '.' || first[end] == '/')
        invariant
            n <= end <= first@.len(),
            end + separators_from(first@, end as int) == n + separators_from(first@, n as int),
        decreases first@.len() - end,
    {
        end += 1;
    }
    let prefix: String = slice(&first, 0, end);
    let ghost want = key_with_separators(key@, all[0]);
    assert(prefix@ =~= want);
    for i in 0..names.len()
        invariant
            pattern == Some(p),
            re@ == p@,
            all == texts(names@),
            prefix@ == want,
            want == key_with_separators(key@, all[0]),
            key@ == group_key(p@, all[0]),
            names@.len() > 0,
            regex_error(p@) is None,
            forall|k: int|
                0 <= k < i ==> group_key(p@, #[trigger] all[k]) == key@ && has_prefix(
                    all[k],
                    want,
                ),
    {
        let other: String = key_of(&re, names[i].as_str());
        if !text_eq(other.as_str(), key.as_str()) || !starts_with(
            names[i].as_str(),
            prefix.as_str(),
        ) {
            assert(group_key(p@, all[i as int]) != key@ || !has_prefix(all[i as int], want));
            return None;
        }
    }
    Some(prefix)
}

/// Whether the keys of groups ascend.
pub open spec fn group_keys_ascend(groups: GroupList) -> bool {
    forall|i: int, j: int|
        0 <= i < j < groups.len() ==> text_lt((#[trigger] groups[i]).0, (#[trigger] groups[j]).0)
}

/// Whether a name is in the group of a key.
pub open spec fn in_group(groups: GroupList, key: Seq<char>, name: Seq<char>) -> bool {
    exists|i: int|
        0 <= i < groups.len() && (#[trigger] groups[i]).0 == key && groups[i].1.contains(name)
}

/// Adding a name keeps the keys ascending and the members that there were; the only new member is
/// the name.
proof fn with_member_laws(groups: GroupList, key: Seq<char>, name: Seq<char>)
    requires
        group_keys_ascend(groups),
    ensures
        group_keys_ascend(with_member(groups, key, name)),
        forall|i: int|
            0 <= i < with_member(groups, key, name).len() ==> (#[trigger] with_member(
                groups,
                key,
                name,
            )[i]).0 == key || exists|j: int|
                0 <= j < groups.len() && (#[trigger] groups[j]).0 == with_member(
                    groups,
                    key,
                    name,
                )[i].0,
        forall|k: Seq<char>, x: Seq<char>| #[trigger]
            in_group(with_member(groups, key, name), k, x) <==> in_group(groups, k, x) || (k == key
                && x == name),
    decreases groups.len(),
{
    let w = with_member(groups, key, name);
    if groups.len() == 0 || text_lt(key, groups[0].0) {
        let first = (key, seq![name]);
        assert forall|i: int, j: int| 0 <= i < j < w.len() implies text_lt(
            (#[trigger] w[i]).0,
            (#[trigger] w[j]).0,
        ) by {
            assert(w[j] == groups[j - 1]);
            if i > 0 {
                assert(w[i] == groups[i - 1]);
            } else if j > 1 {
                assert(text_lt(groups[0].0, groups[j - 1].0));
                text_lt_transitive(key, groups[0].0, groups[j - 1].0);
            }
        }
        assert forall|i: int| 0 <= i < w.len() implies (#[trigger] w[i]).0 == key || exists|j: int|
            0 <= j < groups.len() && (#[trigger] groups[j]).0 == w[i].0 by {
            if i > 0 {
                assert(groups[i - 1].0 == w[i].0);
            }
        }
        assert forall|k: Seq<char>, x: Seq<char>| #[trigger]
            in_group(w, k, x) <==> in_group(groups, k, x) || (k == key && x == name) by {
            if in_group(w, k, x) {
                let i = choose|i: int|
                    0 <= i < w.len() && (#[trigger] w[i]).0 == k && w[i].1.contains(x);
                if i > 0 {
                    assert(groups[i - 1] == w[i]);
                }
            }
            if in_group(groups, k, x) {
                let i = choose|i: int|
                    0 <= i < groups.len() && (#[trigger] groups[i]).0 == k && groups[i].1.contains(
                        x,
                    );
                assert(w[i + 1] == groups[i]);
            }
            assert(w[0].1[0] == name);
        }
    } else if groups[0].0 == key {
        assert forall|i: int, j: int| 0 <= i < j < w.len() implies text_lt(
            (#[trigger] w[i]).0,
            (#[trigger] w[j]).0,
        ) by {
            assert(text_lt(groups[i].0, groups[j].0));
        }
        assert forall|i: int| 0 <= i < w.len() implies (#[trigger] w[i]).0 == key || exists|j: int|
            0 <= j < groups.len() && (#[trigger] groups[j]).0 == w[i].0 by {
            assert(groups[i].0 == w[i].0);
        }
        let more = groups[0].1.push(name);
        assert forall|x: Seq<char>| #[trigger]
            more.contains(x) <==> groups[0].1.contains(x) || x == name by {
            if groups[0].1.contains(x) {
                let m = choose|m: int| 0 <= m < groups[0].1.len() && groups[0].1[m] == x;
                assert(more[m] == x);
            }
            assert(more[more.len() - 1] == name);
        }
        assert forall|k: Seq<char>, x: Seq<char>| #[trigger]
            in_group(w, k, x) <==> in_group(groups, k, x) || (k == key && x == name) by {
            if in_group(w, k, x) {
                let i = choose|i: int|
                    0 <= i < w.len() && (#[trigger] w[i]).0 == k && w[i].1.contains(x);
                assert(groups[i].0 == k);
                if i == 0 {
                    assert(more.contains(x));
                }
            }
            if in_group(groups, k, x) {
                let i = choose|i: int|
                    0 <= i < groups.len() && (#[trigger] groups[i]).0 == k && groups[i].1.contains(
                        x,
                    );
                assert(w[i].0 == k);
                if i == 0 {
                    assert(more.contains(x));
                }
            }
            if k == key && x == name {
                assert(more.contains(x));
                assert(w[0].0 == k);
            }
        }
    } else {
        let rest = groups.drop_first();
        assert forall|i: int, j: int| 0 <= i < j < rest.len() implies text_lt(
            (#[trigger] rest[i]).0,
            (#[trigger] rest[j]).0,
        ) by {
            assert(text_lt(groups[i + 1].0, groups[j + 1].0));
        }
        with_member_laws(rest, key, name);
        let more = with_member(rest, key, name);
        text_lt_total(key, groups[0].0);
        assert forall|i: int, j: int| 0 <= i < j < w.len() implies text_lt(
            (#[trigger] w[i]).0,
            (#[trigger] w[j]).0,
        ) by {
            assert(w[j] == more[j - 1]);
            if i > 0 {
                assert(w[i] == more[i - 1]);
            } else if more[j - 1].0 != key {
                let m = choose|m: int| 0 <= m < rest.len() && (#[trigger] rest[m]).0 == more[j - 1].0;
                assert(text_lt(groups[0].0, groups[m + 1].0));
            }
        }
        assert forall|i: int| 0 <= i < w.len() implies (#[trigger] w[i]).0 == key || exists|j: int|
            0 <= j < groups.len() && (#[trigger] groups[j]).0 == w[i].0 by {
            if i == 0 {
                assert(groups[0].0 == w[0].0);
            } else if more[i - 1].0 != key {
                assert(w[i] == more[i - 1]);
                let m = choose|m: int| 0 <= m < rest.len() && (#[trigger] rest[m]).0 == more[i - 1].0;
                assert(groups[m + 1].0 == w[i].0);
            }
        }
        assert forall|k: Seq<char>, x: Seq<char>| #[trigger]
            in_group(w, k, x) <==> in_group(groups, k, x) || (k == key && x == name) by {
            assert(in_group(more, k, x) <==> in_group(rest, k, x) || (k == key && x == name));
            if in_group(w, k, x) {
                let i = choose|i: int|
                    0 <= i < w.len() && (#[trigger] w[i]).0 == k && w[i].1.contains(x);
                if i == 0 {
                    assert(groups[0].0 == k);
                } else {
                    assert(more[i - 1] == w[i]);
                    assert(in_group(more, k, x));
                    if in_group(rest, k, x) {
                        let m = choose|m: int|
                            0 <= m < rest.len() && (#[trigger] rest[m]).0 == k
                                && rest[m].1.contains(x);
                        assert(groups[m + 1] == rest[m]);
                    }
                }
            }
            if in_group(groups, k, x) {
                let i = choose|i: int|
                    0 <= i < groups.len() && (#[trigger] groups[i]).0 == k && groups[i].1.contains(
                        x,
                    );
                if i == 0 {
                    assert(w[0] == groups[0]);
                } else {
                    assert(rest[i - 1] == groups[i]);
                    assert(in_group(rest, k, x));
                }
            }
            if in_group(more, k, x) {
                let m = choose|m: int|
                    0 <= m < more.len() && (#[trigger] more[m]).0 == k && more[m].1.contains(x);
                assert(w[m + 1] == more[m]);
            }
        }
    }
}

/// Every group has a member, and its key is the member's.
pub proof fn groups_have_members(pattern: Seq<char>, names: Seq<Seq<char>>, i: int)
    requires
        0 <= i < groups_of(pattern, names).len(),
    ensures
        exists|j: int|
            0 <= j < names.len() && group_key(pattern, #[trigger] names[j]) == groups_of(
                pattern,
                names,
            )[i].0,
    decreases names.len(),
{
    let fewer = names.drop_last();
    let before = groups_of(pattern, fewer);
    let key = group_key(pattern, names.last());
    groups_follow_keys(pattern, fewer);
    with_member_laws(before, key, names.last());
    let g = groups_of(pattern, names)[i];
    if g.0 == key {
        assert(group_key(pattern, names[names.len() - 1]) == g.0);
    } else {
        let k = choose|k: int| 0 <= k < before.len() && (#[trigger] before[k]).0 == g.0;
        groups_have_members(pattern, fewer, k);
        let j = choose|j: int|
            0 <= j < fewer.len() && group_key(pattern, #[trigger] fewer[j]) == before[k].0;
        assert(group_key(pattern, names[j]) == g.0);
    }
}

/// A name is in the group of its key and in no other; there is one group for each key.
pub proof fn groups_follow_keys(pattern: Seq<char>, names: Seq<Seq<char>>)
    ensures
        group_keys_ascend(groups_of(pattern, names)),
        forall|k: Seq<char>, x: Seq<char>| #[trigger]
            in_group(groups_of(pattern, names), k, x) <==> names.contains(x) && k == group_key(
                pattern,
                x,
            ),
    decreases names.len(),
{
    let groups = groups_of(pattern, names);
    if names.len() > 0 {
        let fewer = names.drop_last();
        let last = names.last();
        groups_follow_keys(pattern, fewer);
        with_member_laws(groups_of(pattern, fewer), group_key(pattern, last), last);
        assert forall|k: Seq<char>, x: Seq<char>| #[trigger]
            in_group(groups, k, x) <==> names.contains(x) && k == group_key(pattern, x) by {
            assert(in_group(groups_of(pattern, fewer), k, x) <==> fewer.contains(x) && k
                == group_key(pattern, x));
            if names.contains(x) && x != last {
                let m = choose|m: int| 0 <= m < names.len() && names[m] == x;
                assert(fewer[m] == x);
            }
            if fewer.contains(x) {
                let m = choose|m: int| 0 <= m < fewer.len() && fewer[m] == x;
                assert(names[m] == x);
            }
            assert(names[names.len() - 1] == last);
        }
    }
}

} // verus!
