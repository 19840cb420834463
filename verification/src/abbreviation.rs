//! Expansion of abbreviated test names.
//!
//! The leading dotted pieces of a name may be cut down to the initial letters of the segments
//! they stand for: where the only known tests below `b*` are in `breezy`, and below `breezy.t*`
//! in `breezy.tests`, the name `bt.test_foo` stands for `breezy.tests.test_foo`. A piece that
//! equals a segment stands for that segment. A piece of one character stands for nothing else.

use vstd::prelude::*;
use vstd::string::*;

use crate::error::{outcome_view, Error, Failure, Result};
use crate::sort::{same_members, sort_texts, sorted_texts, sorted_texts_same};
use crate::text::compose::{cat3, chars, join, joined, texts};
use crate::text::order::text_eq;
use crate::text::scan::{pieces, split};

verus! {

broadcast use crate::text::compose::texts_push;

/// Whether the characters of `piece` are the initials of the segments from position `at` on.
pub open spec fn are_initials(piece: Seq<char>, segments: Seq<Seq<char>>, at: int) -> bool {
    &&& at + piece.len() <= segments.len()
    &&& forall|k: int|
        0 <= k < piece.len() ==> (#[trigger] segments[at + k]).len() > 0 && segments[at + k][0]
            == piece[k]
}

/// Up to which position the pieces cover the segments from position `at` on. A piece covers one
/// segment that it equals or, failing that and where it has more than one character, the segments
/// whose initials it lists.
pub open spec fn covered(list: Seq<Seq<char>>, segments: Seq<Seq<char>>, at: int) -> Option<int>
    decreases list.len(),
{
    if list.len() == 0 {
        Some(at)
    } else {
        let piece = list[0];
        let rest = list.drop_first();
        let literal = if at < segments.len() && segments[at] == piece {
            covered(rest, segments, at + 1)
        } else {
            None
        };
        if literal is Some {
            literal
        } else if piece.len() > 1 && are_initials(piece, segments, at) {
            covered(rest, segments, at + piece.len())
        } else {
            None
        }
    }
}

/// The segments of `test` that the pieces cover.
pub open spec fn expansion_in(list: Seq<Seq<char>>, test: Seq<char>) -> Option<Seq<Seq<char>>> {
    let segments = pieces(test, '.');
    match covered(list, segments, 0) {
        Some(n) => Some(segments.take(n)),
        None => None,
    }
}

/// The different expansions among the known tests, in the order in which they first occur.
pub open spec fn candidates(list: Seq<Seq<char>>, tests: Seq<Seq<char>>) -> Seq<Seq<Seq<char>>>
    decreases tests.len(),
{
    if tests.len() == 0 {
        Seq::empty()
    } else {
        let before = candidates(list, tests.drop_last());
        match expansion_in(list, tests.last()) {
            Some(e) => if before.contains(e) {
                before
            } else {
                before.push(e)
            },
            None => before,
        }
    }
}

/// The pieces of an abbreviation that are expanded: all but the last, or the only one.
pub open spec fn head_of(abbrev: Seq<char>) -> Seq<Seq<char>> {
    let list = pieces(abbrev, '.');
    if list.len() == 1 {
        list
    } else {
        list.drop_last()
    }
}

/// The piece of an abbreviation that is kept as it is.
pub open spec fn tail_of(abbrev: Seq<char>) -> Seq<char> {
    let list = pieces(abbrev, '.');
    if list.len() == 1 {
        Seq::empty()
    } else {
        list.last()
    }
}

/// Each list of segments with dots between them.
pub open spec fn dotted(list: Seq<Seq<Seq<char>>>) -> Seq<Seq<char>> {
    Seq::new(list.len(), |i: int| joined(list[i], "."@))
}

/// At most the first five texts.
pub open spec fn first_five(list: Seq<Seq<char>>) -> Seq<Seq<char>> {
    if list.len() > 5 {
        list.take(5)
    } else {
        list
    }
}

/// What an abbreviation stands for among the known tests.
pub open spec fn expansion(
    abbrev: Seq<char>,
    tests: Seq<Seq<char>>,
) -> core::result::Result<Seq<char>, Failure> {
    let found = candidates(head_of(abbrev), tests);
    let tail = tail_of(abbrev);
    if abbrev.len() == 0 {
        Err(Failure::Config("empty abbreviation cannot be expanded"@))
    } else if found.len() == 0 {
        Err(Failure::Config("abbreviation '"@ + abbrev + "' matches no known tests"@))
    } else if found.len() == 1 {
        Ok(
            if tail.len() == 0 {
                joined(found[0], "."@)
            } else {
                joined(found[0], "."@) + "."@ + tail
            },
        )
    } else {
        Err(
            Failure::Config(
                "abbreviation '"@ + abbrev + "' is ambiguous; could expand to: "@ + joined(
                    first_five(sorted_texts(dotted(found))),
                    ", "@,
                ),
            ),
        )
    }
}

/// A string has at least one piece.
pub proof fn pieces_nonempty(s: Seq<char>, sep: char)
    ensures
        pieces(s, sep).len() >= 1,
{
}

/// What is covered lies within the segments.
pub proof fn covered_bounds(list: Seq<Seq<char>>, segments: Seq<Seq<char>>, at: int)
    requires
        0 <= at <= segments.len(),
    ensures
        covered(list, segments, at) matches Some(n) ==> at <= n <= segments.len(),
    decreases list.len(),
{
    if list.len() > 0 {
        let piece = list[0];
        let rest = list.drop_first();
        if at < segments.len() {
            covered_bounds(rest, segments, at + 1);
        }
        if at + piece.len() <= segments.len() {
            covered_bounds(rest, segments, at + piece.len());
        }
    }
}

/// Pieces that are segments of a test stand for themselves.
pub proof fn literal_pieces_stand_for_themselves(segments: Seq<Seq<char>>, n: int, at: int)
    requires
        0 <= at <= n <= segments.len(),
    ensures
        covered(segments.subrange(at, n), segments, at) == Some(n),
    decreases n - at,
{
    let list = segments.subrange(at, n);
    if at < n {
        assert(list.drop_first() =~= segments.subrange(at + 1, n));
        literal_pieces_stand_for_themselves(segments, n, at + 1);
    }
}

/// A successful expansion is the start of a known test, but for the piece that is kept.
pub proof fn expansion_is_known(abbrev: Seq<char>, tests: Seq<Seq<char>>)
    requires
        expansion(abbrev, tests) is Ok,
    ensures
        exists|i: int, n: int|
            #![trigger tests[i], pieces(tests[i], '.').take(n)]
            0 <= i < tests.len() && 0 <= n <= pieces(tests[i], '.').len() && candidates(
                head_of(abbrev),
                tests,
            ) == seq![pieces(tests[i], '.').take(n)],
{
    let head = head_of(abbrev);
    let found = candidates(head, tests);
    let i = candidate_source(head, tests, 0);
    let segments = pieces(tests[i], '.');
    covered_bounds(head, segments, 0);
    let n = covered(head, segments, 0)->0;
    assert(found =~= seq![segments.take(n)]);
}

/// Every candidate comes from a known test.
proof fn candidate_source(list: Seq<Seq<char>>, tests: Seq<Seq<char>>, c: int) -> (i: int)
    requires
        0 <= c < candidates(list, tests).len(),
    ensures
        0 <= i < tests.len(),
        expansion_in(list, tests[i]) == Some(candidates(list, tests)[c]),
    decreases tests.len(),
{
    let before = candidates(list, tests.drop_last());
    if c < before.len() {
        candidate_source(list, tests.drop_last(), c)
    } else {
        tests.len() - 1
    }
}

/// The candidates are the expansions among the known tests, each of them once.
proof fn candidates_are(list: Seq<Seq<char>>, tests: Seq<Seq<char>>)
    ensures
        candidates(list, tests).no_duplicates(),
        forall|i: int|
            0 <= i < tests.len() ==> (expansion_in(list, #[trigger] tests[i]) matches Some(e)
                ==> candidates(list, tests).contains(e)),
    decreases tests.len(),
{
    if tests.len() > 0 {
        let init = tests.drop_last();
        let before = candidates(list, init);
        let all = candidates(list, tests);
        candidates_are(list, init);
        assert forall|e: Seq<Seq<char>>| #[trigger] before.contains(e) implies all.contains(e) by {
            let k = choose|k: int| 0 <= k < before.len() && before[k] == e;
            assert(all[k] == e);
        }
        assert forall|i: int| 0 <= i < tests.len() implies (expansion_in(
            list,
            #[trigger] tests[i],
        ) matches Some(e) ==> all.contains(e)) by {
            if i < init.len() {
                assert(init[i] == tests[i]);
            } else if let Some(e) = expansion_in(list, tests[i]) {
                if !before.contains(e) {
                    assert(all[all.len() - 1] == e);
                }
            }
        }
    }
}

/// Tests that occur again or in another order have the same candidates.
proof fn candidates_contained(list: Seq<Seq<char>>, a: Seq<Seq<char>>, b: Seq<Seq<char>>)
    requires
        forall|t: Seq<char>| #[trigger] a.contains(t) ==> b.contains(t),
    ensures
        forall|e: Seq<Seq<char>>| #[trigger]
            candidates(list, a).contains(e) ==> candidates(list, b).contains(e),
{
    candidates_are(list, b);
    assert forall|e: Seq<Seq<char>>| #[trigger] candidates(list, a).contains(e) implies candidates(
        list,
        b,
    ).contains(e) by {
        let c = choose|c: int| 0 <= c < candidates(list, a).len() && candidates(list, a)[c] == e;
        let i = candidate_source(list, a, c);
        assert(a.contains(a[i]));
        assert(b.contains(a[i]));
        let j = choose|j: int| 0 <= j < b.len() && b[j] == a[i];
        assert(expansion_in(list, b[j]) == Some(e));
    }
}

/// Lists that hold the same segments equally often do so with dots between them.
proof fn dotted_same(a: Seq<Seq<Seq<char>>>, b: Seq<Seq<Seq<char>>>)
    requires
        a.to_multiset() == b.to_multiset(),
    ensures
        dotted(a).to_multiset() == dotted(b).to_multiset(),
    decreases a.len(),
{
    broadcast use vstd::seq_lib::group_to_multiset_ensures;

    assert(a.len() == a.to_multiset().len() && b.len() == b.to_multiset().len());
    if a.len() == 0 {
        assert(dotted(a) =~= dotted(b));
    } else {
        let x = a.last();
        assert(a.contains(x));
        assert(b.to_multiset().count(x) > 0);
        assert(b.contains(x));
        let j = choose|j: int| 0 <= j < b.len() && b[j] == x;
        let n = a.len() - 1;
        assert(a.remove(n).to_multiset() == b.remove(j).to_multiset());
        dotted_same(a.remove(n), b.remove(j));
        assert(dotted(a).remove(n) =~= dotted(a.remove(n)));
        assert(dotted(b).remove(j) =~= dotted(b.remove(j)));
        let y = joined(x, "."@);
        assert(dotted(a)[n] == y && dotted(b)[j] == y);
        assert(dotted(a).contains(y) && dotted(b).contains(y));
        assert(dotted(a).to_multiset() =~= dotted(a).remove(n).to_multiset().insert(y));
        assert(dotted(b).to_multiset() =~= dotted(b).remove(j).to_multiset().insert(y));
    }
}

/// What an abbreviation stands for depends only on which tests are known, not on their order or on
/// how often they are named.
pub proof fn expansion_depends_on_the_known_tests(
    abbrev: Seq<char>,
    tests: Seq<Seq<char>>,
    others: Seq<Seq<char>>,
)
    requires
        forall|t: Seq<char>| tests.contains(t) <==> #[trigger] others.contains(t),
    ensures
        expansion(abbrev, tests) == expansion(abbrev, others),
{
    let head = head_of(abbrev);
    let a = candidates(head, tests);
    let b = candidates(head, others);
    candidates_are(head, tests);
    candidates_are(head, others);
    assert forall|t: Seq<char>| #[trigger] tests.contains(t) implies others.contains(t) by {
        assert(tests.contains(t) <==> others.contains(t));
    }
    candidates_contained(head, tests, others);
    candidates_contained(head, others, tests);
    same_members(a, b);
    if a.len() == 1 {
        assert(a.contains(a[0]));
        assert(b.contains(a[0]));
        assert(b[0] == a[0]);
    }
    dotted_same(a, b);
    sorted_texts_same(dotted(a), dotted(b));
}

/// Whether `piece` lists the initials of the segments from position `at` on.
fn initials_match(piece: &Vec<char>, segments: &Vec<String>, at: usize) -> (r: bool)
    requires
        at <= segments@.len(),
    ensures
        r == are_initials(piece@, texts(segments@), at as int),
{
    if piece.len() > segments.len() - at {
        return false;
    }
    let total: usize = segments.len();
    let ghost segs = texts(segments@);
    let mut k: usize = 0;
    while k < piece.len()
        invariant
            k <= piece@.len(),
            total == segments@.len(),
            at + piece@.len() <= total,
            segs == texts(segments@),
            forall|j: int|
                0 <= j < k ==> (#[trigger] segs[at + j]).len() > 0 && segs[at + j][0] == piece@[j],
        decreases piece@.len() - k,
    {
        let segment: Vec<char> = chars(segments[at + k].as_str());
        assert(segs[at + k] == segment@);
        if segment.len() == 0 || segment[0] != piece[k] {
            return false;
        }
        k += 1;
    }
    true
}

/// Up to which position the pieces from `from` on cover the segments from `at` on.
fn match_pieces_at(list: &Vec<String>, from: usize, segments: &Vec<String>, at: usize) -> (r:
    Option<usize>)
    requires
        from <= list@.len(),
        at <= segments@.len(),
    ensures
        match covered(texts(list@).skip(from as int), texts(segments@), at as int) {
            Some(n) => r matches Some(m) && m == n && at <= m <= segments@.len(),
            None => r is None,
        },
    decreases list@.len() - from,
{
    let ghost rest = texts(list@).skip(from as int);
    let ghost segs = texts(segments@);
    if from == list.len() {
        return Some(at);
    }
    assert(rest[0] == list@[from as int]@);
    assert(rest.drop_first() =~= texts(list@).skip(from + 1));
    if at < segments.len() && text_eq(segments[at].as_str(), list[from].as_str()) {
        assert(segs[at as int] == rest[0]);
        let literal: Option<usize> = match_pieces_at(list, from + 1, segments, at + 1);
        if literal.is_some() {
            return literal;
        }
    }
    let piece: Vec<char> = chars(list[from].as_str());
    if piece.len() > 1 && initials_match(&piece, segments, at) {
        return match_pieces_at(list, from + 1, segments, at + piece.len());
    }
    assert(at < segments@.len() ==> segs[at as int] == segments@[at as int]@);
    None
}

/// The segments that the pieces cover.
fn match_pieces(list: &Vec<String>, segments: &Vec<String>) -> (r: Option<Vec<String>>)
    ensures
        match covered(texts(list@), texts(segments@), 0) {
            Some(n) => r matches Some(v) && texts(v@) == texts(segments@).take(n),
            None => r is None,
        },
{
    assert(texts(list@).skip(0) =~= texts(list@));
    match match_pieces_at(list, 0, segments, 0) {
        Some(n) => {
            let mut v: Vec<String> = Vec::new();
            for i in 0..n
                invariant
                    n <= segments@.len(),
                    texts(v@) =~= texts(segments@).take(i as int),
            {
                v.push(segments[i].clone());
            }
            Some(v)
        },
        None => None,
    }
}

/// Whether two lists hold the same strings.
fn same_texts(a: &Vec<String>, b: &Vec<String>) -> (r: bool)
    ensures
        r == (texts(a@) == texts(b@)),
{
    if a.len() != b.len() {
        assert(texts(a@).len() != texts(b@).len());
        return false;
    }
    for i in 0..a.len()
        invariant
            a@.len() == b@.len(),
            forall|k: int| 0 <= k < i ==> a@[k]@ == b@[k]@,
    {
        if !text_eq(a[i].as_str(), b[i].as_str()) {
            assert(texts(a@)[i as int] != texts(b@)[i as int]);
            return false;
        }
    }
    assert(texts(a@) =~= texts(b@));
    true
}

/// The texts of lists of strings.
pub open spec fn lists(v: Seq<Vec<String>>) -> Seq<Seq<Seq<char>>> {
    Seq::new(v.len(), |i: int| texts(v[i]@))
}

/// The different expansions of the pieces among the known tests.
fn collect_candidates(head: &Vec<String>, tests: &Vec<String>) -> (r: Vec<Vec<String>>)
    ensures
        lists(r@) == candidates(texts(head@), texts(tests@)),
{
    let mut found: Vec<Vec<String>> = Vec::new();
    let ghost all = texts(tests@);
    assert(lists(found@) =~= candidates(texts(head@), all.take(0)));
    for i in 0..tests.len()
        invariant
            all == texts(tests@),
            lists(found@) == candidates(texts(head@), all.take(i as int)),
    {
        assert(all.take(i + 1).drop_last() =~= all.take(i as int));
        let segments: Vec<String> = split(tests[i].as_str(), '.');
        if let Some(prefix) = match_pieces(head, &segments) {
            let ghost p = texts(prefix@);
            let mut known: bool = false;
            for j in 0..found.len()
                invariant
                    p == texts(prefix@),
                    known <==> exists|k: int| 0 <= k < j && #[trigger] lists(found@)[k] == p,
            {
                if same_texts(&found[j], &prefix) {
                    assert(lists(found@)[j as int] == p);
                    known = true;
                }
            }
            assert(known == lists(found@).contains(p));
            let ghost before = found@;
            if !known {
                found.push(prefix);
                assert(lists(found@) =~= lists(before).push(p));
            }
        }
    }
    assert(all.take(tests@.len() as int) =~= all);
    found
}

/// Each list of strings with dots between them.
fn join_each(list: &Vec<Vec<String>>) -> (r: Vec<String>)
    ensures
        texts(r@) == dotted(lists(list@)),
{
    let mut r: Vec<String> = Vec::new();
    for i in 0..list.len()
        invariant
            texts(r@) =~= dotted(lists(list@)).take(i as int),
    {
        r.push(join(&list[i], "."));
    }
    assert(texts(r@) =~= dotted(lists(list@)));
    r
}

/// Expands an abbreviated test name against the known test names.
///
/// Fails where the abbreviation is empty, stands for no known test, or could stand for
/// different prefixes.
pub fn expand_abbreviation(abbrev: &str, test_ids: &Vec<String>) -> (r: Result<String>)
    ensures
        outcome_view(r) == expansion(abbrev@, texts(test_ids@)),
{
    if abbrev.is_empty() {
        return Err(Error::Config("empty abbreviation cannot be expanded".to_owned()));
    }
    proof {
        pieces_nonempty(abbrev@, '.');
    }
    let mut head: Vec<String> = split(abbrev, '.');
    let ghost list = texts(head@);
    let tail: String = if head.len() == 1 {
        String::new()
    } else {
        match head.pop() {
            Some(t) => t,
            None => String::new(),
        }
    };
    proof {
        assert(texts(head@) =~= head_of(abbrev@));
        assert(tail@ =~= tail_of(abbrev@));
    }
    let found: Vec<Vec<String>> = collect_candidates(&head, test_ids);
    assert(lists(found@).len() == found@.len());
    if found.len() == 0 {
        return Err(
            Error::Config(cat3("abbreviation '", abbrev, "' matches no known tests")),
        );
    }
    if found.len() == 1 {
        let out: String = join(&found[0], ".");
        assert(lists(found@)[0] == texts(found@[0]@));
        if tail.as_str().is_empty() {
            return Ok(out);
        }
        return Ok(cat3(out.as_str(), ".", tail.as_str()));
    }
    let mut shown: Vec<String> = sort_texts(&join_each(&found));
    let ghost sorted = texts(shown@);
    if shown.len() > 5 {
        shown.truncate(5);
    }
    assert(texts(shown@) =~= first_five(sorted));
    let options: String = join(&shown, ", ");
    Err(
        Error::Config(
            crate::text::compose::cat4(
                "abbreviation '",
                abbrev,
                "' is ambiguous; could expand to: ",
                options.as_str(),
            ),
        ),
    )
}

} // verus!
