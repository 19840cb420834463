//! Choosing tests by the starts of their names, which may be abbreviated.

use vstd::prelude::*;
use vstd::string::*;

use crate::abbreviation::{expand_abbreviation, expansion};
use crate::error::{Failure, Result};
use crate::repository::{test_names, TestId};
use crate::text::compose::{cat5, chars, texts};
use crate::text::order::text_eq;
use crate::text::scan::{has_prefix, starts_with};
use crate::ui::{outputs, Line, Transcript};

verus! {

broadcast use {crate::text::compose::texts_push, crate::repository::test_names_push};

/// What the first `n` starts of names stand for, and what is said of that.
pub open spec fn starts(list: Seq<Seq<char>>, n: nat, known: Seq<Seq<char>>) -> (
    Seq<Seq<char>>,
    core::result::Result<Seq<Seq<char>>, Failure>,
)
    decreases n,
{
    if n == 0 {
        (Seq::empty(), Ok(Seq::empty()))
    } else {
        let before = starts(list, (n - 1) as nat, known);
        match before.1 {
            Err(f) => before,
            Ok(found) => match expansion(list[n - 1], known) {
                Err(f) => (before.0, Err(f)),
                Ok(e) => (
                    if e == list[n - 1] {
                        before.0
                    } else {
                        before.0.push("Expanded '"@ + list[n - 1] + "' to '"@ + e + "'"@)
                    },
                    Ok(found.push(e)),
                ),
            },
        }
    }
}

/// Whether a name is a start or goes on behind it with a dot.
pub open spec fn is_start(start: Seq<char>, name: Seq<char>) -> bool {
    has_prefix(name, start) && (name.len() == start.len() || name[start.len() as int] == '.')
}

/// Whether a name has one of the starts.
pub open spec fn has_start(list: Seq<Seq<char>>, name: Seq<char>) -> bool {
    exists|i: int| 0 <= i < list.len() && is_start(#[trigger] list[i], name)
}

/// The names that have one of the starts.
pub open spec fn with_starts(list: Seq<Seq<char>>, names: Seq<Seq<char>>) -> Seq<Seq<char>>
    decreases names.len(),
{
    if names.len() == 0 {
        Seq::empty()
    } else {
        let before = with_starts(list, names.drop_last());
        if has_start(list, names.last()) {
            before.push(names.last())
        } else {
            before
        }
    }
}

/// A start stands for what its abbreviation stands for among the known tests. Where one stands for
/// nothing, that is what is wrong.
pub proof fn starts_are_expanded(list: Seq<Seq<char>>, n: nat, known: Seq<Seq<char>>)
    requires
        n <= list.len(),
    ensures
        match starts(list, n, known).1 {
            Ok(found) => found.len() == n && forall|k: int|
                0 <= k < n ==> expansion(#[trigger] list[k], known) == Ok::<Seq<char>, Failure>(
                    found[k],
                ),
            Err(f) => exists|k: int|
                0 <= k < n && expansion(#[trigger] list[k], known) == Err::<Seq<char>, Failure>(f),
        },
    decreases n,
{
    if n > 0 {
        starts_are_expanded(list, (n - 1) as nat, known);
        let before = starts(list, (n - 1) as nat, known);
        if before.1 is Ok && expansion(list[n - 1], known) is Err {
            assert(expansion(list[n - 1], known) == Err::<Seq<char>, Failure>(
                starts(list, n, known).1->Err_0,
            ));
        }
    }
}

/// Saying one thing after another.
pub proof fn outputs_join(a: Seq<Seq<char>>, b: Seq<Seq<char>>)
    ensures
        outputs(a) + outputs(b) == outputs(a + b),
        outputs(Seq::empty()) == Seq::<Line>::empty(),
{
    assert(outputs(a) + outputs(b) =~= outputs(a + b));
    assert(outputs(Seq::empty()) =~= Seq::<Line>::empty());
}

/// What starts of names stand for.
pub(crate) fn expand_starts(list: &Vec<String>, tests: &Vec<TestId>, ui: &mut Transcript) -> (r: Result<
    Vec<String>,
>)
    ensures
        ({
            let s = starts(texts(list@), list@.len(), test_names(tests@));
            &&& final(ui)@ == old(ui)@ + outputs(s.0)
            &&& match s.1 {
                Ok(found) => r matches Ok(v) && texts(v@) == found,
                Err(f) => r matches Err(e) && e@ == f,
            }
        }),
{
    let mut known: Vec<String> = Vec::new();
    for i in 0..tests.len()
        invariant
            texts(known@) =~= test_names(tests@).take(i as int),
    {
        known.push(tests[i].as_str().to_owned());
    }
    let ghost names = test_names(tests@);
    assert(texts(known@) =~= names);
    let ghost all = texts(list@);
    let mut found: Vec<String> = Vec::new();
    assert(texts(found@) =~= Seq::<Seq<char>>::empty());
    proof {
        outputs_join(Seq::empty(), Seq::empty());
    }
    for i in 0..list.len()
        invariant
            all == texts(list@),
            names == texts(known@),
            names == test_names(tests@),
            starts(all, i as nat, names).1 == Ok::<Seq<Seq<char>>, Failure>(texts(found@)),
            ui@ =~= old(ui)@ + outputs(starts(all, i as nat, names).0),
    {
        let ghost so_far = starts(all, i as nat, names).0;
        match expand_abbreviation(list[i].as_str(), &known) {
            Err(e) => {
                proof {
                    assert(all[i as int] == list@[i as int]@);
                    starts_stay(all, (i + 1) as nat, all.len(), names);
                }
                return Err(e);
            },
            Ok(e) => {
                if !text_eq(e.as_str(), list[i].as_str()) {
                    let line: String = cat5(
                        "Expanded '",
                        list[i].as_str(),
                        "' to '",
                        e.as_str(),
                        "'",
                    );
                    ui.output(line.as_str());
                    proof {
                        outputs_join(so_far, seq![line@]);
                        assert(so_far + seq![line@] =~= so_far.push(line@));
                        assert(outputs(seq![line@]) =~= seq![Line::Output(line@)]);
                    }
                }
                found.push(e);
            },
        }
    }
    Ok(found)
}

/// A start of a name that stands for nothing ends it.
proof fn starts_stay(list: Seq<Seq<char>>, m: nat, n: nat, known: Seq<Seq<char>>)
    requires
        m <= n,
        starts(list, m, known).1 is Err,
    ensures
        starts(list, n, known) == starts(list, m, known),
    decreases n,
{
    if m < n {
        starts_stay(list, m, (n - 1) as nat, known);
    }
}

/// Whether a name is a start or goes on behind it with a dot.
fn name_starts(start: &str, name: &str) -> (r: bool)
    ensures
        r == is_start(start@, name@),
{
    if !starts_with(name, start) {
        return false;
    }
    let s: Vec<char> = chars(start);
    let n: Vec<char> = chars(name);
    n.len() == s.len() || n[s.len()] == '.'
}

/// The tests that have one of the starts.
pub(crate) fn keep_starts(list: &Vec<String>, tests: &Vec<TestId>) -> (r: Vec<TestId>)
    ensures
        test_names(r@) == with_starts(texts(list@), test_names(tests@)),
{
    let ghost names = test_names(tests@);
    let ghost all = texts(list@);
    let mut r: Vec<TestId> = Vec::new();
    assert(test_names(r@) =~= with_starts(all, names.take(0)));
    for i in 0..tests.len()
        invariant
            names == test_names(tests@),
            all == texts(list@),
            test_names(r@) == with_starts(all, names.take(i as int)),
    {
        assert(names.take(i + 1).drop_last() =~= names.take(i as int));
        let mut found: bool = false;
        for k in 0..list.len()
            invariant
                i < tests@.len(),
                all == texts(list@),
                found <==> exists|j: int|
                    0 <= j < k && is_start(#[trigger] all[j], tests@[i as int]@),
        {
            if name_starts(list[k].as_str(), tests[i].as_str()) {
                assert(is_start(all[k as int], tests@[i as int]@));
                found = true;
            }
        }
        if found {
            r.push(tests[i].copy());
        }
    }
    assert(names.take(tests@.len() as int) =~= names);
    r
}

} // verus!
