//! Failures of a run, grouped by what they have in common.
//!
//! Many tests fail for the same reason, with tracebacks that differ in paths, line numbers and
//! the like. Each failure is brought to a form without them, down to the line that names the
//! failure, and failures with a common tail are put together.

use vstd::prelude::*;
use vstd::string::*;

use crate::abbreviation::lists;
use crate::commands::Command;
use crate::gather::{append_texts, gathered};
use crate::pattern::{regex_error, regex_matches, regex_replaced, Regexp};
use crate::repository::{failing_results, is_failure, status_text, test_names, RunId, TestId, TestResult, TestRun};
use crate::sort::{is_order, order_is_complete, positions, ranks_before, ranks_total, sort_texts, sorted_order, sorted_texts, SortKey};
use crate::text::compose::{cat2, cat3, cat4, cat5, clone_texts, texts};
use crate::text::number::{count_text, decimal};
use crate::text::order::{list_less, list_lt, list_lt_irreflexive, list_lt_total, list_lt_transitive, text_eq};
use crate::text::scan::{lines, lines_of, trim, trim_end, trimmed, trimmed_end};
use crate::error::{Error, Result};
use crate::store::{asked_run, collect_failures, open_run, refs, run_of, Store};
use crate::ui::{outputs, Transcript};
use crate::union_find::UnionFind;

verus! {

broadcast use crate::text::compose::texts_push;

/// How many tests of a group are shown where nothing else is asked for.
pub const DEFAULT_SAMPLES: usize = 5;

/// How many lines of a failure are compared at most.
pub const MAX_FINGERPRINT_LINES: usize = 12;

/// How many lines two failures must share at least.
pub const MIN_OVERLAP_LINES: usize = 2;

/// How many rules bring a line to its common form.
pub const RULE_COUNT: usize = 9;

/// What each rule looks for: addresses, quoted paths, bare paths, names of temporary directories,
/// line numbers, positions, the function of a frame, durations and large numbers.
pub open spec fn rule_pattern(k: int) -> Seq<char> {
    if k == 0 {
        r"0x[0-9a-fA-F_]+"@
    } else if k == 1 {
        r#""[^"\n]*[/\\][^"\n]*""#@
    } else if k == 2 {
        r"(?:[A-Za-z]:)?[\w./\\\-]+\.[A-Za-z][A-Za-z0-9]+"@
    } else if k == 3 {
        r"\.tmp[A-Za-z0-9]+"@
    } else if k == 4 {
        r"\bline[: ]\s*\d+\b"@
    } else if k == 5 {
        r":\d+(?::\d+)?\b"@
    } else if k == 6 {
        r"(,\s*in)\s+[\w:.<>]+\s*$"@
    } else if k == 7 {
        r"\b\d+(?:\.\d+)?(?:ns|µs|us|ms|s)\b"@
    } else {
        r"\b\d{4,}\b"@
    }
}

/// What each rule puts in its place.
pub open spec fn rule_replacement(k: int) -> Seq<char> {
    if k == 0 {
        "<hex>"@
    } else if k == 1 {
        "\"<path>\""@
    } else if k == 2 {
        "<path>"@
    } else if k == 3 {
        ".tmp<x>"@
    } else if k == 4 {
        "line <n>"@
    } else if k == 5 {
        ":<n>"@
    } else if k == 6 {
        "$1 <fn>"@
    } else if k == 7 {
        "<dur>"@
    } else {
        "<n>"@
    }
}

/// What a line that names a failure looks like.
pub open spec fn anchor_pattern() -> Seq<char> {
    r"(?:^|\W)(?:[A-Z]\w*(?:Error|Exception|Warning):\s|panicked at|thread '[^']*' panicked|assertion (?:failed|`)|AssertionError|FAILED|fatal error|Segmentation fault|abort(?:ed)?)"@
}

/// A line after one rule. A pattern that does not compile changes nothing.
pub open spec fn rule_applied(k: int, line: Seq<char>) -> Seq<char> {
    if regex_error(rule_pattern(k)) is None {
        regex_replaced(rule_pattern(k), line, rule_replacement(k))
    } else {
        line
    }
}

/// A line after the first `n` rules.
pub open spec fn after_rules(line: Seq<char>, n: nat) -> Seq<char>
    decreases n,
{
    if n == 0 {
        line
    } else {
        rule_applied(n - 1, after_rules(line, (n - 1) as nat))
    }
}

/// The common form of a line.
pub open spec fn normalized(line: Seq<char>) -> Seq<char> {
    after_rules(trimmed_end(line), 9)
}

/// Whether a line names a failure.
pub open spec fn is_anchor(line: Seq<char>) -> bool {
    regex_error(anchor_pattern()) is None && regex_matches(anchor_pattern(), line)
}

/// The common forms of the lines, without those that are blank.
pub open spec fn kept_lines(list: Seq<Seq<char>>) -> Seq<Seq<char>>
    decreases list.len(),
{
    if list.len() == 0 {
        Seq::empty()
    } else {
        let before = kept_lines(list.drop_last());
        let line = normalized(list.last());
        if trimmed(line).len() > 0 {
            before.push(line)
        } else {
            before
        }
    }
}

/// The position of the last line that names a failure, or of the last line.
pub open spec fn anchor_index(list: Seq<Seq<char>>, n: int) -> int
    decreases n,
{
    if n <= 0 {
        list.len() - 1
    } else if is_anchor(list[n - 1]) {
        n - 1
    } else {
        anchor_index(list, n - 1)
    }
}

/// What failures are compared by: at most twelve lines up to the one that names the failure.
pub open spec fn fingerprint_of(text: Seq<char>) -> Seq<Seq<char>> {
    let list = kept_lines(lines_of(text));
    if list.len() == 0 {
        list
    } else {
        let end = anchor_index(list, list.len() as int) + 1;
        let start = if end > 12 {
            end - 12
        } else {
            0
        };
        list.subrange(start, end)
    }
}

/// The text of a failure: its details, else its message, else its status.
pub open spec fn failure_body(r: TestResult) -> Seq<char> {
    if r.details is Some && trimmed(r.details->0@).len() > 0 {
        r.details->0@
    } else if r.message is Some && trimmed(r.message->0@).len() > 0 {
        r.message->0@
    } else {
        status_text(r.status)
    }
}

/// How many lines two lists have in common at their ends.
pub open spec fn common_suffix(a: Seq<Seq<char>>, b: Seq<Seq<char>>) -> nat
    decreases a.len(),
{
    if a.len() > 0 && b.len() > 0 && a.last() == b.last() {
        1 + common_suffix(a.drop_last(), b.drop_last())
    } else {
        0
    }
}

/// Whether two failures are taken for the same: they share two lines and half of the shorter one,
/// or both have no lines.
pub open spec fn merges(a: Seq<Seq<char>>, b: Seq<Seq<char>>) -> bool {
    if a.len() == 0 || b.len() == 0 {
        a.len() == 0 && b.len() == 0
    } else {
        let overlap = common_suffix(a, b);
        overlap >= 2 && overlap * 2 >= if a.len() < b.len() {
            a.len()
        } else {
            b.len()
        }
    }
}

/// Whether each failure of a chain is the same as the next one.
pub open spec fn is_chain(fps: Seq<Seq<Seq<char>>>, chain: Seq<int>) -> bool {
    &&& chain.len() > 0
    &&& forall|i: int| 0 <= i < chain.len() ==> 0 <= #[trigger] chain[i] < fps.len()
    &&& forall|i: int, j: int|
        0 <= i && j == i + 1 && j < chain.len() ==> merges(
            fps[#[trigger] chain[i]],
            fps[#[trigger] chain[j]],
        )
}

/// Whether a chain of failures that are the same leads from one to the other.
pub open spec fn linked(fps: Seq<Seq<Seq<char>>>, x: int, y: int) -> bool {
    exists|chain: Seq<int>| #[trigger]
        is_chain(fps, chain) && chain[0] == x && chain.last() == y
}

/// What the failures of a group have in common at their ends.
pub open spec fn shared_tail(fps: Seq<Seq<Seq<char>>>, members: Seq<int>) -> Seq<Seq<char>>
    decreases members.len(),
{
    if members.len() == 0 {
        Seq::empty()
    } else if members.len() == 1 {
        fps[members[0]]
    } else {
        let before = shared_tail(fps, members.drop_last());
        before.skip(before.len() - common_suffix(before, fps[members.last()]))
    }
}

/// Whether a failure is in one of the clusters.
pub open spec fn in_some_cluster(clusters: Seq<Seq<int>>, i: int) -> bool {
    exists|c: int| 0 <= c < clusters.len() && (#[trigger] clusters[c]).contains(i)
}

/// Whether `clusters` divides the failures so that two are together where a chain links them.
pub open spec fn are_clusters(fps: Seq<Seq<Seq<char>>>, clusters: Seq<Seq<int>>) -> bool {
    &&& forall|c: int, m: int|
        0 <= c < clusters.len() && 0 <= m < clusters[c].len() ==> 0 <= #[trigger] clusters[c][m]
            < fps.len()
    &&& forall|c: int| 0 <= c < clusters.len() ==> (#[trigger] clusters[c]).len() > 0
    &&& forall|i: int| 0 <= i < fps.len() ==> #[trigger] in_some_cluster(clusters, i)
    &&& forall|c: int, d: int, i: int, j: int|
        0 <= c < clusters.len() && 0 <= d < clusters.len() && #[trigger] clusters[c].contains(i)
            && #[trigger] clusters[d].contains(j) ==> (c == d <==> linked(fps, i, j))
    &&& forall|c: int, m: int, n: int|
        0 <= c < clusters.len() && 0 <= m < n < clusters[c].len() ==> #[trigger] clusters[c][m]
            < #[trigger] clusters[c][n]
}

/// What each failure is compared by.
pub open spec fn fingerprints_of(failures: Seq<&TestResult>) -> Seq<Seq<Seq<char>>> {
    Seq::new(failures.len(), |i: int| fingerprint_of(failure_body(*failures[i])))
}

/// The names of the tests at the given positions.
pub open spec fn names_at(failures: Seq<&TestResult>, members: Seq<int>) -> Seq<Seq<char>> {
    Seq::new(members.len(), |m: int| failures[members[m]].test_id@)
}

/// Tests that failed in the same way.
#[derive(Debug)]
pub struct Group {
    /// The lines that all of the failures end with.
    pub shared_tail: Vec<String>,
    /// The tests, by name.
    pub test_ids: Vec<TestId>,
}

/// Whether a group is made of the failures at the given positions.
pub open spec fn is_group(failures: Seq<&TestResult>, members: Seq<int>, g: Group) -> bool {
    &&& texts(g.shared_tail@) == shared_tail(fingerprints_of(failures), members)
    &&& test_names(g.test_ids@) == sorted_texts(names_at(failures, members))
}

/// Whether each group is made of the cluster at its position.
pub open spec fn groups_match(
    failures: Seq<&TestResult>,
    clusters: Seq<Seq<int>>,
    groups: Seq<Group>,
) -> bool {
    &&& clusters.len() == groups.len()
    &&& forall|k: int|
        0 <= k < groups.len() ==> is_group(failures, clusters[k], #[trigger] groups[k])
}

/// Whether the groups are those of the failures, the largest first, and among groups of the same
/// size by their common lines.
pub open spec fn are_groups(failures: Seq<&TestResult>, groups: Seq<Group>) -> bool {
    &&& exists|clusters: Seq<Seq<int>>| #[trigger]
        are_clusters(fingerprints_of(failures), clusters) && groups_match(
            failures,
            clusters,
            groups,
        )
    &&& forall|a: int, b: int|
        0 <= a < b < groups.len() ==> !(#[trigger] groups[b]).before(#[trigger] &groups[a])
}

impl SortKey for Group {
    open spec fn before(&self, other: &Self) -> bool {
        self.test_ids@.len() > other.test_ids@.len() || (self.test_ids@.len()
            == other.test_ids@.len() && list_lt(
            texts(self.shared_tail@),
            texts(other.shared_tail@),
        ))
    }

    proof fn weak_order(a: &Self, b: &Self, c: &Self) {
        let x = texts(a.shared_tail@);
        let y = texts(b.shared_tail@);
        let z = texts(c.shared_tail@);
        list_lt_irreflexive(x);
        if list_lt(x, y) && list_lt(y, z) {
            list_lt_transitive(x, y, z);
        }
        list_lt_total(x, y);
        list_lt_total(y, z);
        if list_lt(y, x) && list_lt(z, y) {
            list_lt_transitive(z, y, x);
        }
        if list_lt(x, z) && list_lt(z, x) {
            list_lt_transitive(x, z, x);
        }
        if list_lt(x, z) && y == x && list_lt(z, y) {
            list_lt_transitive(x, z, x);
        }
    }

    fn is_before(&self, other: &Self) -> (r: bool) {
        self.test_ids.len() > other.test_ids.len() || (self.test_ids.len() == other.test_ids.len()
            && list_less(&self.shared_tail, &other.shared_tail))
    }
}

/// Whether two failures are the same does not depend on their order.
pub proof fn merges_symmetric(a: Seq<Seq<char>>, b: Seq<Seq<char>>)
    ensures
        merges(a, b) == merges(b, a),
{
    common_suffix_symmetric(a, b);
}

/// What two lists have in common does not depend on their order.
pub proof fn common_suffix_symmetric(a: Seq<Seq<char>>, b: Seq<Seq<char>>)
    ensures
        common_suffix(a, b) == common_suffix(b, a),
    decreases a.len(),
{
    if a.len() > 0 && b.len() > 0 && a.last() == b.last() {
        common_suffix_symmetric(a.drop_last(), b.drop_last());
    }
}

/// What two lists have in common is the end of both, and is no longer than either.
pub proof fn common_suffix_shared(a: Seq<Seq<char>>, b: Seq<Seq<char>>)
    ensures
        common_suffix(a, b) <= a.len(),
        common_suffix(a, b) <= b.len(),
        a.skip(a.len() - common_suffix(a, b)) == b.skip(b.len() - common_suffix(a, b)),
    decreases a.len(),
{
    let n = common_suffix(a, b);
    if a.len() > 0 && b.len() > 0 && a.last() == b.last() {
        let c = a.drop_last();
        let d = b.drop_last();
        common_suffix_shared(c, d);
        let m = common_suffix(c, d);
        assert(a.skip(a.len() - n) =~= c.skip(c.len() - m).push(a.last()));
        assert(b.skip(b.len() - n) =~= d.skip(d.len() - m).push(b.last()));
    } else {
        assert(a.skip(a.len() as int) =~= b.skip(b.len() as int));
    }
}

/// The lines a group is named by end every failure of the group.
pub proof fn shared_tail_ends_all(fps: Seq<Seq<Seq<char>>>, members: Seq<int>, m: int)
    requires
        0 <= m < members.len(),
    ensures
        ({
            let t = shared_tail(fps, members);
            let f = fps[members[m]];
            t.len() <= f.len() && f.skip(f.len() - t.len()) == t
        }),
    decreases members.len(),
{
    let t = shared_tail(fps, members);
    let f = fps[members[m]];
    if members.len() == 1 {
        assert(f.skip(0) =~= f);
    } else {
        let before = shared_tail(fps, members.drop_last());
        let last = fps[members.last()];
        common_suffix_shared(before, last);
        if m < members.len() - 1 {
            shared_tail_ends_all(fps, members.drop_last(), m);
            assert(members.drop_last()[m] == members[m]);
            assert(f.skip(f.len() - t.len()) =~= before.skip(before.len() - t.len()));
        }
    }
}

/// The end of an end.
proof fn suffix_of_suffix(a: Seq<Seq<char>>, b: Seq<Seq<char>>, n: nat)
    requires
        n <= a.len(),
        n <= b.len(),
        a.skip(a.len() - n) == b.skip(b.len() - n),
    ensures
        common_suffix(a, b) >= n,
    decreases n,
{
    if n > 0 {
        assert(a.skip(a.len() - n)[n - 1] == a.last());
        assert(b.skip(b.len() - n)[n - 1] == b.last());
        let c = a.drop_last();
        let d = b.drop_last();
        assert(c.skip(c.len() - (n - 1)) =~= a.skip(a.len() - n).drop_last());
        assert(d.skip(d.len() - (n - 1)) =~= b.skip(b.len() - n).drop_last());
        suffix_of_suffix(c, d, (n - 1) as nat);
    }
}

/// No longer list of lines ends every failure of a group.
pub proof fn shared_tail_is_longest(fps: Seq<Seq<Seq<char>>>, members: Seq<int>, t: Seq<Seq<char>>)
    requires
        members.len() > 0,
        forall|m: int|
            0 <= m < members.len() ==> {
                let f = fps[#[trigger] members[m]];
                t.len() <= f.len() && f.skip(f.len() - t.len()) == t
            },
    ensures
        t.len() <= shared_tail(fps, members).len(),
    decreases members.len(),
{
    let f = fps[members[0]];
    if members.len() > 1 {
        let fewer = members.drop_last();
        assert forall|m: int| 0 <= m < fewer.len() implies {
            let f = fps[#[trigger] fewer[m]];
            t.len() <= f.len() && f.skip(f.len() - t.len()) == t
        } by {
            assert(fewer[m] == members[m]);
        }
        shared_tail_is_longest(fps, fewer, t);
        shared_tail_ends_all(fps, fewer, 0);
        let before = shared_tail(fps, fewer);
        let last = fps[members[members.len() - 1]];
        assert(fewer[0] == members[0]);
        assert(before.skip(before.len() - t.len()) =~= f.skip(f.len() - t.len()));
        suffix_of_suffix(before, last, t.len());
        common_suffix_shared(before, last);
    }
}

/// Every failure is linked to itself.
proof fn linked_reflexive(fps: Seq<Seq<Seq<char>>>, x: int)
    requires
        0 <= x < fps.len(),
    ensures
        linked(fps, x, x),
{
    let chain = seq![x];
    assert(is_chain(fps, chain));
}

/// Failures that are the same are linked.
proof fn linked_by_step(fps: Seq<Seq<Seq<char>>>, x: int, y: int)
    requires
        0 <= x < fps.len(),
        0 <= y < fps.len(),
        merges(fps[x], fps[y]),
    ensures
        linked(fps, x, y),
{
    let chain = seq![x, y];
    assert(is_chain(fps, chain));
}

/// Chains can be put together.
proof fn linked_transitive(fps: Seq<Seq<Seq<char>>>, x: int, y: int, z: int)
    requires
        linked(fps, x, y),
        linked(fps, y, z),
    ensures
        linked(fps, x, z),
{
    let p = choose|p: Seq<int>| #[trigger] is_chain(fps, p) && p[0] == x && p.last() == y;
    let q = choose|q: Seq<int>| #[trigger] is_chain(fps, q) && q[0] == y && q.last() == z;
    let n = p.len() - 1;
    let chain = p + q.drop_first();
    assert forall|i: int| 0 <= i < chain.len() implies 0 <= #[trigger] chain[i] < fps.len() by {
        if i < p.len() {
            assert(chain[i] == p[i]);
        } else {
            assert(chain[i] == q[i - n]);
        }
    }
    assert forall|i: int, j: int| 0 <= i && j == i + 1 && j < chain.len() implies merges(
        fps[#[trigger] chain[i]],
        fps[#[trigger] chain[j]],
    ) by {
        if j < p.len() {
            assert(chain[i] == p[i] && chain[j] == p[j]);
        } else {
            assert(chain[j] == q[j - n]);
            assert(chain[i] == q[i - n]);
        }
    }
    assert(is_chain(fps, chain));
    assert(chain.last() == z);
}

/// Chains lead both ways.
proof fn linked_symmetric(fps: Seq<Seq<Seq<char>>>, x: int, y: int)
    requires
        linked(fps, x, y),
    ensures
        linked(fps, y, x),
{
    let p = choose|p: Seq<int>| #[trigger] is_chain(fps, p) && p[0] == x && p.last() == y;
    let n = p.len() - 1;
    let chain = p.reverse();
    assert forall|i: int| 0 <= i < chain.len() implies 0 <= #[trigger] chain[i] < fps.len() by {
        assert(chain[i] == p[n - i]);
    }
    assert forall|i: int, j: int| 0 <= i && j == i + 1 && j < chain.len() implies merges(
        fps[#[trigger] chain[i]],
        fps[#[trigger] chain[j]],
    ) by {
        assert(chain[i] == p[n - i] && chain[j] == p[n - j]);
        merges_symmetric(fps[p[n - j]], fps[p[n - i]]);
    }
    assert(is_chain(fps, chain));
}

/// Where failures that are the same have the same mark, failures that a chain links have too.
proof fn linked_same_mark(fps: Seq<Seq<Seq<char>>>, mark: Seq<int>, x: int, y: int)
    requires
        linked(fps, x, y),
        forall|i: int, j: int|
            0 <= i < fps.len() && 0 <= j < fps.len() && #[trigger] merges(fps[i], fps[j])
                ==> mark[i] == mark[j],
    ensures
        mark[x] == mark[y],
{
    let p = choose|p: Seq<int>| #[trigger] is_chain(fps, p) && p[0] == x && p.last() == y;
    chain_same_mark(fps, mark, p, p.len() - 1);
}

proof fn chain_same_mark(fps: Seq<Seq<Seq<char>>>, mark: Seq<int>, chain: Seq<int>, n: int)
    requires
        is_chain(fps, chain),
        0 <= n < chain.len(),
        forall|i: int, j: int|
            0 <= i < fps.len() && 0 <= j < fps.len() && #[trigger] merges(fps[i], fps[j])
                ==> mark[i] == mark[j],
    ensures
        mark[chain[0]] == mark[chain[n]],
    decreases n,
{
    if n > 0 {
        chain_same_mark(fps, mark, chain, n - 1);
        assert(merges(fps[chain[n - 1]], fps[chain[n]]));
    }
}

/// The pattern of a rule.
fn rule_pattern_text(k: usize) -> (r: &'static str)
    requires
        k < RULE_COUNT,
    ensures
        r@ == rule_pattern(k as int),
{
    match k {
        0 => r"0x[0-9a-fA-F_]+",
        1 => r#""[^"\n]*[/\\][^"\n]*""#,
        2 => r"(?:[A-Za-z]:)?[\w./\\\-]+\.[A-Za-z][A-Za-z0-9]+",
        3 => r"\.tmp[A-Za-z0-9]+",
        4 => r"\bline[: ]\s*\d+\b",
        5 => r":\d+(?::\d+)?\b",
        6 => r"(,\s*in)\s+[\w:.<>]+\s*$",
        7 => r"\b\d+(?:\.\d+)?(?:ns|µs|us|ms|s)\b",
        _ => r"\b\d{4,}\b",
    }
}

/// The replacement of a rule.
fn rule_replacement_text(k: usize) -> (r: &'static str)
    requires
        k < RULE_COUNT,
    ensures
        r@ == rule_replacement(k as int),
{
    match k {
        0 => "<hex>",
        1 => "\"<path>\"",
        2 => "<path>",
        3 => ".tmp<x>",
        4 => "line <n>",
        5 => ":<n>",
        6 => "$1 <fn>",
        7 => "<dur>",
        _ => "<n>",
    }
}

/// A compiled pattern; `None` where it does not compile.
pub(crate) fn compiled(pattern: &str) -> (r: Option<Regexp>)
    ensures
        r is Some <==> regex_error(pattern@) is None,
        r matches Some(re) ==> re@ == pattern@,
{
    match Regexp::compile(pattern) {
        Ok(re) => Some(re),
        Err(_) => None,
    }
}

/// The patterns that lines are looked at with: those of the rules, in the order in which the rules
/// are applied, and that of lines that name a failure. `None` stands for one that does not compile.
#[verifier::ext_equal]
pub struct PatternTexts {
    /// The patterns of the rules.
    pub rules: Seq<Option<Seq<char>>>,
    /// What a line that names a failure looks like.
    pub anchor: Option<Seq<char>>,
}

/// A pattern, where it compiles.
pub open spec fn usable(pattern: Seq<char>) -> Option<Seq<char>> {
    if regex_error(pattern) is None {
        Some(pattern)
    } else {
        None
    }
}

/// The patterns of all rules and that of lines that name a failure, each where it compiles.
pub open spec fn usable_patterns() -> PatternTexts {
    PatternTexts {
        rules: Seq::new(RULE_COUNT as nat, |k: int| usable(rule_pattern(k))),
        anchor: usable(anchor_pattern()),
    }
}

/// The pattern that an optional expression was compiled from.
pub open spec fn pattern_text(r: Option<Regexp>) -> Option<Seq<char>> {
    match r {
        Some(re) => Some(re@),
        None => None,
    }
}

/// The compiled patterns that lines are looked at with.
#[derive(Debug)]
pub struct LinePatterns {
    rules: Vec<Option<Regexp>>,
    anchor: Option<Regexp>,
}

impl View for LinePatterns {
    type V = PatternTexts;

    /// The patterns that were compiled.
    closed spec fn view(&self) -> PatternTexts {
        PatternTexts {
            rules: Seq::new(self.rules@.len(), |k: int| pattern_text(self.rules@[k])),
            anchor: pattern_text(self.anchor),
        }
    }
}

impl LinePatterns {
    #[verifier::type_invariant]
    closed spec fn ready(&self) -> bool {
        self@ == usable_patterns()
    }

    /// Compiles the patterns of all rules and that of lines that name a failure.
    pub fn new() -> (r: LinePatterns)
        ensures
            r@ == usable_patterns(),
    {
        let mut rules: Vec<Option<Regexp>> = Vec::new();
        for k in 0..RULE_COUNT
            invariant
                rules@.len() == k,
                forall|j: int|
                    0 <= j < k ==> pattern_text(#[trigger] rules@[j]) == usable(rule_pattern(j)),
        {
            rules.push(compiled(rule_pattern_text(k)));
        }
        let anchor: Option<Regexp> = compiled(
            r"(?:^|\W)(?:[A-Z]\w*(?:Error|Exception|Warning):\s|panicked at|thread '[^']*' panicked|assertion (?:failed|`)|AssertionError|FAILED|fatal error|Segmentation fault|abort(?:ed)?)",
        );
        assert(Seq::new(rules@.len(), |k: int| pattern_text(rules@[k])) =~= usable_patterns().rules);
        LinePatterns { rules, anchor }
    }

    /// The common form of a line.
    pub fn normalize(&self, line: &str) -> (r: String)
        ensures
            r@ == normalized(line@),
    {
        proof {
            use_type_invariant(self);
        }
        assert(self@.rules.len() == RULE_COUNT);
        let mut s: String = trim_end(line);
        for k in 0..RULE_COUNT
            invariant
                self@ == usable_patterns(),
                self.rules@.len() == RULE_COUNT,
                s@ == after_rules(trimmed_end(line@), k as nat),
        {
            let rule: &Option<Regexp> = &self.rules[k];
            assert(self@.rules[k as int] == pattern_text(*rule));
            if let Some(re) = rule {
                s = re.replace_all(s.as_str(), rule_replacement_text(k));
            }
        }
        s
    }

    /// Whether a line names a failure.
    pub fn names_failure(&self, line: &str) -> (r: bool)
        ensures
            r == is_anchor(line@),
    {
        proof {
            use_type_invariant(self);
        }
        match &self.anchor {
            Some(re) => re.is_match(line),
            None => false,
        }
    }

    /// What a failure with the given text is compared by.
    pub fn fingerprint(&self, text: &str) -> (r: Vec<String>)
        ensures
            texts(r@) == fingerprint_of(text@),
    {
        let all: Vec<String> = lines(text);
        let ghost ls = texts(all@);
        let mut kept: Vec<String> = Vec::new();
        assert(texts(kept@) =~= kept_lines(ls.take(0)));
        for i in 0..all.len()
            invariant
                ls == texts(all@),
                texts(kept@) == kept_lines(ls.take(i as int)),
        {
            assert(ls.take(i + 1).drop_last() =~= ls.take(i as int));
            let line: String = self.normalize(all[i].as_str());
            let shown: String = trim(line.as_str());
            if !shown.as_str().is_empty() {
                kept.push(line);
            }
        }
        assert(ls.take(all@.len() as int) =~= ls);
        let ghost list = texts(kept@);
        if kept.len() == 0 {
            return kept;
        }
        let mut n: usize = kept.len();
        while n > 0 && !self.names_failure(kept[n - 1].as_str())
            invariant
                n <= kept@.len(),
                list == texts(kept@),
                anchor_index(list, list.len() as int) == anchor_index(list, n as int),
            decreases n,
        {
            n -= 1;
        }
        let end: usize = if n == 0 {
            kept.len()
        } else {
            n
        };
        let start: usize = if end > MAX_FINGERPRINT_LINES {
            end - MAX_FINGERPRINT_LINES
        } else {
            0
        };
        let mut r: Vec<String> = Vec::new();
        for i in start..end
            invariant
                start <= end <= kept@.len(),
                list == texts(kept@),
                texts(r@) =~= list.subrange(start as int, i as int),
        {
            r.push(kept[i].clone());
        }
        r
    }
}

/// The common form of a line: what changes from run to run is replaced by placeholders.
pub fn normalize_line(line: &str) -> (r: String)
    ensures
        r@ == normalized(line@),
{
    LinePatterns::new().normalize(line)
}

/// Whether a line names a failure.
pub fn is_anchor_line(line: &str) -> (r: bool)
    ensures
        r == is_anchor(line@),
{
    LinePatterns::new().names_failure(line)
}

/// What a failure with the given text is compared by: the common forms of its lines that are not
/// blank, up to the last one that names a failure, at most twelve.
pub fn fingerprint(text: &str) -> (r: Vec<String>)
    ensures
        texts(r@) == fingerprint_of(text@),
{
    LinePatterns::new().fingerprint(text)
}

/// The text of a failure: its details, else its message, else its status.
pub fn pick_text(result: &TestResult) -> (r: String)
    ensures
        r@ == failure_body(*result),
{
    if let Some(d) = &result.details {
        let t: String = trim(d.as_str());
        if !t.as_str().is_empty() {
            return d.clone();
        }
    }
    if let Some(m) = &result.message {
        let t: String = trim(m.as_str());
        if !t.as_str().is_empty() {
            return m.clone();
        }
    }
    result.status.text().to_owned()
}

/// How many lines two lists have in common at their ends.
pub fn common_suffix_len(a: &Vec<String>, b: &Vec<String>) -> (r: usize)
    ensures
        r == common_suffix(texts(a@), texts(b@)),
        r <= a@.len(),
        r <= b@.len(),
{
    let ghost x = texts(a@);
    let ghost y = texts(b@);
    let mut n: usize = 0;
    assert(x.take(x.len() as int) =~= x && y.take(y.len() as int) =~= y);
    while n < a.len() && n < b.len() && text_eq(
        a[a.len() - 1 - n].as_str(),
        b[b.len() - 1 - n].as_str(),
    )
        invariant
            n <= a@.len(),
            n <= b@.len(),
            x == texts(a@),
            y == texts(b@),
            common_suffix(x, y) == n + common_suffix(x.take(x.len() - n), y.take(y.len() - n)),
        decreases a@.len() - n,
    {
        proof {
            let c = x.take(x.len() - n);
            let d = y.take(y.len() - n);
            assert(c.last() == a@[a@.len() - 1 - n]@);
            assert(d.last() == b@[b@.len() - 1 - n]@);
            assert(c.drop_last() =~= x.take(x.len() - n - 1));
            assert(d.drop_last() =~= y.take(y.len() - n - 1));
        }
        n += 1;
    }
    proof {
        let c = x.take(x.len() - n);
        let d = y.take(y.len() - n);
        if n < a@.len() && n < b@.len() {
            assert(c.last() == a@[a@.len() - 1 - n]@);
            assert(d.last() == b@[b@.len() - 1 - n]@);
        }
    }
    n
}

/// Whether two failures are taken for the same.
pub fn should_merge(a: &Vec<String>, b: &Vec<String>) -> (r: bool)
    ensures
        r == merges(texts(a@), texts(b@)),
{
    if a.len() == 0 || b.len() == 0 {
        return a.len() == 0 && b.len() == 0;
    }
    let overlap: usize = common_suffix_len(a, b);
    if overlap < MIN_OVERLAP_LINES {
        return false;
    }
    let shorter: usize = if a.len() < b.len() {
        a.len()
    } else {
        b.len()
    };
    overlap >= shorter - overlap
}

/// Divides failures, given what they are compared by, into those that chains link.
fn cluster(fps: &Vec<Vec<String>>) -> (r: Vec<Vec<usize>>)
    ensures
        are_clusters(lists(fps@), index_lists(r@)),
{
    let n: usize = fps.len();
    let ghost f = lists(fps@);
    let mut uf: UnionFind = UnionFind::new(n);
    proof {
        assert forall|x: int, y: int|
            0 <= x < n && 0 <= y < n && uf@[x] == uf@[y] implies #[trigger] linked(f, x, y) by {
            linked_reflexive(f, x);
        }
    }
    for i in 0..n
        invariant
            n == fps@.len(),
            f == lists(fps@),
            uf@.len() == n,
            forall|x: int, y: int|
                0 <= x < n && 0 <= y < n && uf@[x] == uf@[y] ==> #[trigger] linked(f, x, y),
            forall|x: int, y: int|
                0 <= x < i && x < y < n && #[trigger] merges(f[x], f[y]) ==> uf@[x] == uf@[y],
    {
        for j in i + 1..n
            invariant
                i < n == fps@.len(),
                f == lists(fps@),
                uf@.len() == n,
                forall|x: int, y: int|
                    0 <= x < n && 0 <= y < n && uf@[x] == uf@[y] ==> #[trigger] linked(f, x, y),
                forall|x: int, y: int|
                    0 <= x < i && x < y < n && #[trigger] merges(f[x], f[y]) ==> uf@[x] == uf@[y],
                forall|y: int|
                    i < y < j && #[trigger] merges(f[i as int], f[y]) ==> uf@[i as int] == uf@[y],
        {
            if should_merge(&fps[i], &fps[j]) {
                let ghost before = uf@;
                uf.union(i, j);
                proof {
                    let a = i as int;
                    let b = j as int;
                    assert(merges(f[a], f[b]));
                    linked_by_step(f, a, b);
                    linked_symmetric(f, a, b);
                    assert forall|x: int, y: int|
                        0 <= x < n && 0 <= y < n && uf@[x] == uf@[y] implies #[trigger] linked(
                        f,
                        x,
                        y,
                    ) by {
                        if before[x] == before[y] {
                        } else if before[x] == before[a] {
                            assert(linked(f, x, a));
                            assert(before[y] == before[b]);
                            assert(linked(f, b, y));
                            linked_transitive(f, x, a, b);
                            linked_transitive(f, x, b, y);
                        } else {
                            assert(before[y] == before[a]);
                            assert(before[x] == before[b]);
                            assert(linked(f, x, b));
                            assert(linked(f, a, y));
                            linked_transitive(f, x, b, a);
                            linked_transitive(f, x, a, y);
                        }
                    }
                }
            }
        }
    }
    let ghost mark = uf@;
    proof {
        assert forall|x: int, y: int|
            0 <= x < n && 0 <= y < n && #[trigger] merges(f[x], f[y]) implies mark[x]
            == mark[y] by {
            if y < x {
                merges_symmetric(f[x], f[y]);
                assert(merges(f[y], f[x]));
            }
        }
    }
    let mut leaders: Vec<usize> = Vec::new();
    let mut r: Vec<Vec<usize>> = Vec::new();
    for i in 0..n
        invariant
            n == fps@.len(),
            uf@ == mark,
            mark.len() == n,
            leaders@.len() == r@.len(),
            forall|c: int| 0 <= c < r@.len() ==> (#[trigger] r@[c])@.len() > 0,
            forall|c: int, m: int| #![trigger r@[c]@[m]]
                0 <= c < r@.len() && 0 <= m < r@[c]@.len() ==> r@[c]@[m] < i && mark[
                    r@[c]@[m] as int
                ] == leaders@[c],
            forall|c: int, m: int, k: int|
                0 <= c < r@.len() && 0 <= m < k < r@[c]@.len() ==> #[trigger] r@[c]@[m]
                    < #[trigger] r@[c]@[k],
            forall|c: int, d: int|
                0 <= c < d < leaders@.len() ==> #[trigger] leaders@[c] != #[trigger] leaders@[d],
            forall|x: int|
                0 <= x < i ==> #[trigger] listed(r@, x),
    {
        let root: usize = uf.find(i);
        let mut c: usize = 0;
        while c < leaders.len() && leaders[c] != root
            invariant
                c <= leaders@.len(),
                forall|d: int| 0 <= d < c ==> #[trigger] leaders@[d] != root,
            decreases leaders@.len() - c,
        {
            c += 1;
        }
        let ghost before = r@;
        if c < leaders.len() {
            let mut members: Vec<usize> = Vec::new();
            core::mem::swap(&mut members, &mut r[c]);
            members.push(i);
            r[c] = members;
            assert(r@ =~= before.update(c as int, members));
            assert(r@[c as int]@ =~= before[c as int]@.push(i));
        } else {
            let mut members: Vec<usize> = Vec::new();
            members.push(i);
            r.push(members);
            leaders.push(root);
            assert(r@ =~= before.push(members));
            assert(r@[c as int]@ =~= seq![i]);
        }
        proof {
            let at = c as int;
            assert forall|k: int, m: int| #![trigger r@[k]@[m]]
                0 <= k < r@.len() && 0 <= m < r@[k]@.len() implies r@[k]@[m] < i + 1 && mark[
                r@[k]@[m] as int
            ] == leaders@[k] by {
                if k != at {
                    assert(r@[k] == before[k]);
                    assert(before[k]@[m] < i);
                } else if m < r@[k]@.len() - 1 {
                    assert(r@[k]@[m] == before[k]@[m]);
                    assert(before[k]@[m] < i);
                }
            }
            assert forall|k: int, a: int, b: int|
                0 <= k < r@.len() && 0 <= a < b < r@[k]@.len() implies #[trigger] r@[k]@[a]
                < #[trigger] r@[k]@[b] by {
                if k != at {
                    assert(r@[k] == before[k]);
                    assert(before[k]@[a] < before[k]@[b]);
                } else {
                    assert(r@[k]@[a] == before[k]@[a]);
                    assert(before[k]@[a] < i);
                    if b < before[k]@.len() {
                        assert(before[k]@[a] < before[k]@[b]);
                        assert(r@[k]@[b] == before[k]@[b]);
                    }
                }
            }
            assert forall|x: int| 0 <= x < i + 1 implies #[trigger] listed(r@, x) by {
                if x < i {
                    assert(listed(before, x));
                    let (k, m) = choose|k: int, m: int|
                        0 <= k < before.len() && 0 <= m < before[k]@.len() && #[trigger] before[k]@[m]
                            == x;
                    assert(r@[k]@[m] == x);
                } else {
                    let m = r@[at]@.len() - 1;
                    assert(r@[at]@[m] == x);
                }
            }
        }
    }
    proof {
        let cs = index_lists(r@);
        assert forall|i: int| 0 <= i < f.len() implies #[trigger] in_some_cluster(cs, i) by {
            assert(listed(r@, i));
            let (k, m) = choose|k: int, m: int|
                0 <= k < r@.len() && 0 <= m < r@[k]@.len() && #[trigger] r@[k]@[m] == i;
            assert(cs[k][m] == i);
            assert(cs[k].contains(i));
        }
        assert forall|c: int, m: int|
            0 <= c < cs.len() && 0 <= m < cs[c].len() implies 0 <= #[trigger] cs[c][m]
            < f.len() by {
            assert(r@[c]@[m] < n);
        }
        assert forall|c: int, m: int, k: int|
            0 <= c < cs.len() && 0 <= m < k < cs[c].len() implies #[trigger] cs[c][m]
            < #[trigger] cs[c][k] by {
            assert(r@[c]@[m] < r@[c]@[k]);
        }
        assert forall|c: int, d: int, i: int, j: int|
            0 <= c < cs.len() && 0 <= d < cs.len() && #[trigger] cs[c].contains(i)
                && #[trigger] cs[d].contains(j) implies (c == d <==> linked(f, i, j)) by {
            let a = choose|a: int| 0 <= a < cs[c].len() && cs[c][a] == i;
            let b = choose|b: int| 0 <= b < cs[d].len() && cs[d][b] == j;
            assert(r@[c]@[a] == i && r@[d]@[b] == j);
            assert(mark[i] == leaders@[c] && mark[j] == leaders@[d]);
            if linked(f, i, j) {
                linked_same_mark(f, mark, i, j);
                if c < d {
                    assert(leaders@[c] != leaders@[d]);
                } else if d < c {
                    assert(leaders@[d] != leaders@[c]);
                }
            }
        }
        assert forall|c: int| 0 <= c < cs.len() implies (#[trigger] cs[c]).len() > 0 by {
            assert(r@[c]@.len() > 0);
        }
    }
    r
}

/// Whether a number is in one of the lists.
spec fn listed(r: Seq<Vec<usize>>, x: int) -> bool {
    exists|k: int, m: int|
        0 <= k < r.len() && 0 <= m < r[k]@.len() && #[trigger] r[k]@[m] == x
}

/// Lists of positions as integers.
pub open spec fn index_lists(v: Seq<Vec<usize>>) -> Seq<Seq<int>> {
    Seq::new(v.len(), |i: int| positions(v[i]@))
}

/// What the failures at the given positions have in common at their ends.
fn tail_of_members(fps: &Vec<Vec<String>>, members: &Vec<usize>) -> (r: Vec<String>)
    requires
        members@.len() > 0,
        forall|m: int| 0 <= m < members@.len() ==> (#[trigger] members@[m]) < fps@.len(),
    ensures
        texts(r@) == shared_tail(lists(fps@), positions(members@)),
{
    let ghost f = lists(fps@);
    let ghost all = positions(members@);
    let mut r: Vec<String> = clone_texts(&fps[members[0]]);
    assert(f[all[0]] == texts(fps@[members@[0] as int]@));
    for i in 1..members.len()
        invariant
            f == lists(fps@),
            all == positions(members@),
            forall|m: int| 0 <= m < members@.len() ==> (#[trigger] members@[m]) < fps@.len(),
            members@.len() > 0,
            i <= members@.len(),
            texts(r@) == shared_tail(f, all.take(i as int)),
    {
        let ghost now = all.take(i + 1);
        assert(now.drop_last() =~= all.take(i as int));
        let at: usize = members[i];
        assert(f[now.last()] == texts(fps@[at as int]@));
        let k: usize = common_suffix_len(&r, &fps[at]);
        let mut shorter: Vec<String> = Vec::new();
        let ghost before = texts(r@);
        for j in r.len() - k..r.len()
            invariant
                k <= r@.len(),
                before == texts(r@),
                texts(shorter@) =~= before.subrange(r@.len() - k, j as int),
        {
            shorter.push(r[j].clone());
        }
        assert(texts(shorter@) =~= before.skip(before.len() - k));
        r = shorter;
    }
    assert(all.take(members@.len() as int) =~= all);
    r
}

/// The tests at the given positions, by name.
fn tests_of_members(failures: &Vec<&TestResult>, members: &Vec<usize>) -> (r: Vec<TestId>)
    requires
        forall|m: int| 0 <= m < members@.len() ==> (#[trigger] members@[m]) < failures@.len(),
    ensures
        test_names(r@) == sorted_texts(names_at(failures@, positions(members@))),
{
    let ghost names = names_at(failures@, positions(members@));
    let mut v: Vec<String> = Vec::new();
    for i in 0..members.len()
        invariant
            names == names_at(failures@, positions(members@)),
            forall|m: int| 0 <= m < members@.len() ==> (#[trigger] members@[m]) < failures@.len(),
            texts(v@) =~= names.take(i as int),
    {
        v.push(failures[members[i]].test_id.as_str().to_owned());
    }
    assert(texts(v@) =~= names);
    let sorted: Vec<String> = sort_texts(&v);
    let mut r: Vec<TestId> = Vec::new();
    for i in 0..sorted.len()
        invariant
            test_names(r@) =~= texts(sorted@).take(i as int),
    {
        let ghost before = r@;
        let t: TestId = TestId::new(sorted[i].as_str());
        r.push(t);
        assert(test_names(r@) =~= test_names(before).push(texts(sorted@)[i as int]));
    }
    assert(test_names(r@) =~= texts(sorted@));
    r
}

impl Group {
    /// The same group once more.
    fn copy(&self) -> (r: Group)
        ensures
            texts(r.shared_tail@) == texts(self.shared_tail@),
            test_names(r.test_ids@) == test_names(self.test_ids@),
            r.test_ids@.len() == self.test_ids@.len(),
    {
        let mut test_ids: Vec<TestId> = Vec::new();
        for i in 0..self.test_ids.len()
            invariant
                test_ids@ =~= self.test_ids@.take(i as int),
        {
            test_ids.push(self.test_ids[i].copy());
        }
        assert(test_ids@ =~= self.test_ids@);
        Group { shared_tail: clone_texts(&self.shared_tail), test_ids }
    }
}

/// Puts failures together that are linked by chains of failures that are the same. The largest
/// groups come first.
pub fn cluster_failures(failures: &Vec<&TestResult>) -> (r: Vec<Group>)
    ensures
        are_groups(failures@, r@),
{
    let patterns: LinePatterns = LinePatterns::new();
    let mut fps: Vec<Vec<String>> = Vec::new();
    let ghost f = fingerprints_of(failures@);
    for i in 0..failures.len()
        invariant
            f == fingerprints_of(failures@),
            lists(fps@) =~= f.take(i as int),
    {
        let body: String = pick_text(failures[i]);
        let ghost before = fps@;
        let fp: Vec<String> = patterns.fingerprint(body.as_str());
        fps.push(fp);
        assert(lists(fps@) =~= lists(before).push(f[i as int]));
    }
    assert(lists(fps@) =~= f);
    let members: Vec<Vec<usize>> = cluster(&fps);
    let ghost cs = index_lists(members@);
    let mut groups: Vec<Group> = Vec::new();
    for c in 0..members.len()
        invariant
            f == fingerprints_of(failures@),
            f == lists(fps@),
            cs == index_lists(members@),
            are_clusters(f, cs),
            groups@.len() == c,
            forall|k: int|
                0 <= k < c ==> is_group(failures@, cs[k], #[trigger] groups@[k]),
    {
        proof {
            assert(cs[c as int] == positions(members@[c as int]@));
            assert(cs[c as int].len() > 0);
            assert forall|m: int| 0 <= m < members@[c as int]@.len() implies (
            #[trigger] members@[c as int]@[m]) < fps@.len() by {
                assert(cs[c as int][m] < f.len());
            }
        }
        let tail: Vec<String> = tail_of_members(&fps, &members[c]);
        let test_ids: Vec<TestId> = tests_of_members(failures, &members[c]);
        groups.push(Group { shared_tail: tail, test_ids });
    }
    let order: Vec<usize> = sorted_order(&groups);
    let ghost o = positions(order@);
    let ghost ordered = Seq::new(o.len(), |k: int| cs[o[k]]);
    let mut r: Vec<Group> = Vec::new();
    for k in 0..order.len()
        invariant
            o == positions(order@),
            is_order(groups@, o),
            r@.len() == k,
            forall|a: int|
                0 <= a < k ==> {
                    &&& texts((#[trigger] r@[a]).shared_tail@) == texts(groups@[o[a]].shared_tail@)
                    &&& test_names(r@[a].test_ids@) == test_names(groups@[o[a]].test_ids@)
                    &&& r@[a].test_ids@.len() == groups@[o[a]].test_ids@.len()
                },
    {
        assert(0 <= o[k as int] < groups@.len());
        r.push(groups[order[k]].copy());
    }
    proof {
        assert forall|a: int, b: int| 0 <= a < b < r@.len() implies !(#[trigger] r@[b]).before(
            #[trigger] &r@[a],
        ) by {
            assert(ranks_before(groups@, o[a], o[b]));
            Group::weak_order(&groups@[o[a]], &groups@[o[b]], &groups@[o[a]]);
        }
        assert forall|k: int| 0 <= k < r@.len() implies is_group(
            failures@,
            ordered[k],
            #[trigger] r@[k],
        ) by {
            assert(0 <= o[k] < groups@.len());
            assert(is_group(failures@, cs[o[k]], groups@[o[k]]));
        }
        clusters_reordered(f, cs, groups@, o);
        assert(groups_match(failures@, ordered, r@));
    }
    r
}

/// Clusters in another order are clusters.
proof fn clusters_reordered(
    fps: Seq<Seq<Seq<char>>>,
    cs: Seq<Seq<int>>,
    groups: Seq<Group>,
    o: Seq<int>,
)
    requires
        are_clusters(fps, cs),
        groups.len() == cs.len(),
        is_order(groups, o),
    ensures
        are_clusters(fps, Seq::new(o.len(), |k: int| cs[o[k]])),
{
    let ds = Seq::new(o.len(), |k: int| cs[o[k]]);
    assert forall|c: int, m: int|
        0 <= c < ds.len() && 0 <= m < ds[c].len() implies 0 <= #[trigger] ds[c][m]
        < fps.len() by {
        assert(0 <= o[c] < cs.len());
        assert(0 <= cs[o[c]][m] < fps.len());
    }
    assert forall|c: int| 0 <= c < ds.len() implies (#[trigger] ds[c]).len() > 0 by {
        assert(0 <= o[c] < cs.len());
        assert(cs[o[c]].len() > 0);
    }
    assert forall|i: int| 0 <= i < fps.len() implies #[trigger] in_some_cluster(ds, i) by {
        assert(in_some_cluster(cs, i));
        let c = choose|c: int| 0 <= c < cs.len() && (#[trigger] cs[c]).contains(i);
        order_is_complete(groups, o, c);
        let k = choose|k: int| 0 <= k < o.len() && o[k] == c;
        assert(ds[k].contains(i));
    }
    assert forall|c: int, d: int, i: int, j: int|
        0 <= c < ds.len() && 0 <= d < ds.len() && #[trigger] ds[c].contains(i)
            && #[trigger] ds[d].contains(j) implies (c == d <==> linked(fps, i, j)) by {
        assert(0 <= o[c] < cs.len() && 0 <= o[d] < cs.len());
        assert(cs[o[c]].contains(i) && cs[o[d]].contains(j));
        assert(o[c] == o[d] <==> linked(fps, i, j));
        if c != d {
            ranks_total(groups, o[c], o[d], o[c]);
        }
    }
    assert forall|c: int, m: int, n: int|
        0 <= c < ds.len() && 0 <= m < n < ds[c].len() implies #[trigger] ds[c][m]
        < #[trigger] ds[c][n] by {
        assert(0 <= o[c] < cs.len());
        assert(cs[o[c]][m] < cs[o[c]][n]);
    }
}

/// Command that groups the failures of a run by what they have in common.
#[derive(Debug)]
pub struct SummarizeCommand {
    /// Where the repository is.
    pub base_path: Option<String>,
    /// The run; the latest one where none is named.
    pub run_id: Option<String>,
    /// How many tests of a group are shown.
    pub samples: usize,
}

/// `test` or `tests`.
pub open spec fn test_word(n: nat) -> Seq<char> {
    if n == 1 {
        "test"@
    } else {
        "tests"@
    }
}

/// How many tests of a group are shown.
pub open spec fn shown_count(samples: nat, n: nat) -> nat {
    if samples < n {
        samples
    } else {
        n
    }
}

/// The lines that a group has in common, indented.
pub open spec fn tail_part(g: Group) -> spec_fn(int) -> Seq<Seq<char>> {
    |i: int| seq!["    "@ + g.shared_tail@[i]@]
}

/// The tests of a group, one in a line.
pub open spec fn test_part(g: Group) -> spec_fn(int) -> Seq<Seq<char>> {
    |i: int| seq!["  - "@ + g.test_ids@[i]@]
}

/// What is said of the group at position `idx`.
pub open spec fn group_lines(g: Group, idx: int, samples: nat) -> Seq<Seq<char>> {
    let n = g.test_ids@.len();
    let shown = shown_count(samples, n);
    seq![
        ""@,
        "["@ + decimal((idx + 1) as nat) + "] "@ + decimal(n) + " "@ + test_word(n) + ":"@,
    ] + (if g.shared_tail@.len() == 0 {
        seq!["    (no traceback)"@]
    } else {
        gathered(tail_part(g), g.shared_tail@.len())
    }) + gathered(test_part(g), shown) + (if n > shown {
        seq!["  … and "@ + decimal((n - shown) as nat) + " more"@]
    } else {
        Seq::empty()
    })
}

/// What is said of each group.
pub open spec fn group_part(groups: Seq<Group>, samples: nat) -> spec_fn(int) -> Seq<Seq<char>> {
    |i: int| group_lines(groups[i], i, samples)
}

/// What is said of the failures of a run.
pub open spec fn summary_lines(
    run_id: Seq<char>,
    failures: nat,
    groups: Seq<Group>,
    samples: nat,
) -> Seq<Seq<char>> {
    seq![
        decimal(failures) + " failing test(s) in run "@ + run_id + ", "@ + decimal(groups.len())
            + " distinct failure(s):"@,
    ] + gathered(group_part(groups, samples), groups.len())
}

/// Whether `lines` and the exit code are what is said of a run.
pub open spec fn is_summary(
    run_id: Seq<char>,
    results: Seq<TestResult>,
    samples: nat,
    lines: Seq<Seq<char>>,
    code: i32,
) -> bool {
    let failures = refs(failing_results(results));
    if failures.len() == 0 {
        lines == seq!["No failing tests in run "@ + run_id] && code == 0
    } else {
        code == 1 && exists|groups: Seq<Group>| #[trigger]
            are_groups(failures, groups) && lines == summary_lines(
                run_id,
                failures.len(),
                groups,
                samples,
            )
    }
}

/// What is said of a group.
fn render_group(g: &Group, idx: usize, samples: usize) -> (r: Vec<String>)
    requires
        idx < usize::MAX,
    ensures
        texts(r@) == group_lines(*g, idx as int, samples as nat),
{
    let n: usize = g.test_ids.len();
    let word: &str = if n == 1 {
        "test"
    } else {
        "tests"
    };
    let mut r: Vec<String> = Vec::new();
    r.push("".to_owned());
    let mut title: String = cat4("[", count_text(idx + 1).as_str(), "] ", count_text(n).as_str());
    title.append(" ");
    title.append(word);
    title.append(":");
    r.push(title);
    let ghost head = texts(r@);
    if g.shared_tail.len() == 0 {
        r.push("    (no traceback)".to_owned());
    } else {
        for i in 0..g.shared_tail.len()
            invariant
                texts(r@) =~= head + gathered(tail_part(*g), i as nat),
        {
            r.push(cat2("    ", g.shared_tail[i].as_str()));
        }
    }
    let ghost tail = texts(r@);
    let shown: usize = if samples < n {
        samples
    } else {
        n
    };
    for i in 0..shown
        invariant
            shown <= n == g.test_ids@.len(),
            texts(r@) =~= tail + gathered(test_part(*g), i as nat),
    {
        r.push(cat2("  - ", g.test_ids[i].as_str()));
    }
    if n > shown {
        r.push(cat3("  … and ", count_text(n - shown).as_str(), " more"));
    }
    assert(texts(r@) =~= group_lines(*g, idx as int, samples as nat));
    r
}

impl SummarizeCommand {
    /// A command for a run; the latest one where none is named.
    pub fn new(base_path: Option<String>, run_id: Option<String>, samples: usize) -> (r: Self)
        ensures
            r == (SummarizeCommand { base_path, run_id, samples }),
    {
        SummarizeCommand { base_path, run_id, samples }
    }

    /// What is said of the failures of a run, and the exit code.
    pub fn report(&self, run_id: &RunId, run: &TestRun) -> (r: (Vec<String>, i32))
        ensures
            is_summary(run_id@, run.results@, self.samples as nat, texts(r.0@), r.1),
    {
        let failures: Vec<&TestResult> = collect_failures(run.results.entries());
        let mut out: Vec<String> = Vec::new();
        if failures.len() == 0 {
            out.push(cat2("No failing tests in run ", run_id.as_str()));
            assert(texts(out@) =~= seq!["No failing tests in run "@ + run_id@]);
            return (out, 0);
        }
        let groups: Vec<Group> = cluster_failures(&failures);
        let title: String = cat5(
            count_text(failures.len()).as_str(),
            " failing test(s) in run ",
            run_id.as_str(),
            ", ",
            count_text(groups.len()).as_str(),
        );
        out.push(cat2(title.as_str(), " distinct failure(s):"));
        let ghost head = texts(out@);
        let samples: usize = self.samples;
        for i in 0..groups.len()
            invariant
                texts(out@) =~= head + gathered(group_part(groups@, samples as nat), i as nat),
        {
            let more: Vec<String> = render_group(&groups[i], i, samples);
            append_texts(&mut out, more);
        }
        proof {
            assert(texts(out@) =~= summary_lines(
                run_id@,
                failures@.len(),
                groups@,
                samples as nat,
            ));
            assert(are_groups(refs(failing_results(run.results@)), groups@));
        }
        (out, 1)
    }

    /// Groups the failures of the run that was asked for.
    pub fn execute(&self, store: &Store, ui: &mut Transcript) -> (r: Result<i32>)
        ensures
            match asked_run(store.runs@, self.run_id) {
                Err(f) => r matches Err(e) && e@ == f && final(ui)@ == old(ui)@,
                Ok(id) => exists|lines: Seq<Seq<char>>, code: i32| #[trigger]
                    is_summary(
                        id,
                        run_of(store.runs@, id).run.results@,
                        self.samples as nat,
                        lines,
                        code,
                    ) && final(ui)@ == old(ui)@ + outputs(lines) && r == Ok::<i32, Error>(code),
            },
    {
        let (run_id, run) = match open_run(store, &self.run_id) {
            Ok(v) => v,
            Err(e) => {
                return Err(e);
            },
        };
        let (lines, code) = self.report(&run_id, run);
        ui.output_all(&lines);
        Ok(code)
    }
}

/// Two failures are taken for the same exactly if both have no lines, or if they end with the same
/// lines, at least two of them and at least half of the shorter one.
pub proof fn same_failures_share_their_ends(a: Seq<Seq<char>>, b: Seq<Seq<char>>)
    ensures
        merges(a, b) <==> (a.len() == 0 && b.len() == 0) || exists|k: int|
            2 <= k <= a.len() && k <= b.len() && (2 * k >= a.len() || 2 * k >= b.len())
                && #[trigger] a.skip(a.len() - k) == b.skip(b.len() - k),
{
    common_suffix_shared(a, b);
    let n = common_suffix(a, b) as int;
    if merges(a, b) && a.len() > 0 {
        assert(a.skip(a.len() - n) == b.skip(b.len() - n));
    }
    if exists|k: int|
        2 <= k <= a.len() && k <= b.len() && (2 * k >= a.len() || 2 * k >= b.len())
            && #[trigger] a.skip(a.len() - k) == b.skip(b.len() - k) {
        let k = choose|k: int|
            2 <= k <= a.len() && k <= b.len() && (2 * k >= a.len() || 2 * k >= b.len())
                && #[trigger] a.skip(a.len() - k) == b.skip(b.len() - k);
        suffix_of_suffix(a, b, k as nat);
    }
}

/// What a failure is compared by ends with the last of its lines that names a failure, where one
/// does, and has at most twelve lines.
pub proof fn fingerprints_end_at_the_failure(text: Seq<char>)
    ensures
        ({
            let list = kept_lines(lines_of(text));
            let f = fingerprint_of(text);
            &&& f.len() <= 12
            &&& f.len() == 0 <==> list.len() == 0
            &&& list.len() > 0 ==> exists|e: int|
                0 <= e < list.len() && f.last() == #[trigger] list[e] && f.len() == (if e < 12 {
                    e + 1
                } else {
                    12
                }) && (forall|k: int| e < k < list.len() ==> !is_anchor(#[trigger] list[k])) && (
                is_anchor(list[e]) || (e == list.len() - 1 && forall|k: int|
                    0 <= k < list.len() ==> !is_anchor(#[trigger] list[k])))
        }),
{
    let list = kept_lines(lines_of(text));
    let f = fingerprint_of(text);
    if list.len() > 0 {
        anchor_is_last(list, list.len() as int);
        let e = anchor_index(list, list.len() as int);
        assert(f.last() == list[e]);
    }
}

proof fn anchor_is_last(list: Seq<Seq<char>>, n: int)
    requires
        list.len() > 0,
        0 <= n <= list.len(),
    ensures
        0 <= anchor_index(list, n) < list.len(),
        (is_anchor(list[anchor_index(list, n)]) && anchor_index(list, n) < n && forall|k: int|
            anchor_index(list, n) < k < n ==> !is_anchor(#[trigger] list[k])) || (anchor_index(
            list,
            n,
        ) == list.len() - 1 && forall|k: int| 0 <= k < n ==> !is_anchor(#[trigger] list[k])),
    decreases n,
{
    if n > 0 && !is_anchor(list[n - 1]) {
        anchor_is_last(list, n - 1);
    }
}

/// The exit code of a summary tells whether a test failed.
pub proof fn summary_tells_whether_tests_failed(
    run_id: Seq<char>,
    results: Seq<TestResult>,
    samples: nat,
    lines: Seq<Seq<char>>,
    code: i32,
)
    requires
        is_summary(run_id, results, samples, lines, code),
    ensures
        code == 1 <==> exists|i: int|
            0 <= i < results.len() && is_failure((#[trigger] results[i]).status),
        code == 0 || code == 1,
{
    failing_are_failures(results);
    let f = failing_results(results);
    assert(refs(f).len() == f.len());
}

proof fn failing_are_failures(s: Seq<TestResult>)
    ensures
        failing_results(s).len() > 0 <==> exists|i: int|
            0 <= i < s.len() && is_failure((#[trigger] s[i]).status),
    decreases s.len(),
{
    if s.len() > 0 {
        let init = s.drop_last();
        failing_are_failures(init);
        if exists|i: int| 0 <= i < init.len() && is_failure((#[trigger] init[i]).status) {
            let i = choose|i: int| 0 <= i < init.len() && is_failure((#[trigger] init[i]).status);
            assert(is_failure(s[i].status));
        }
        if exists|i: int| 0 <= i < s.len() && is_failure((#[trigger] s[i]).status) {
            let i = choose|i: int| 0 <= i < s.len() && is_failure((#[trigger] s[i]).status);
            if i < init.len() {
                assert(is_failure(init[i].status));
            }
        }
        if is_failure(s.last().status) {
            assert(is_failure(s[s.len() - 1].status));
        }
    }
}

/// Every failing test is in a group.
pub proof fn groups_hold_all_failures(failures: Seq<&TestResult>, groups: Seq<Group>, i: int)
    requires
        are_groups(failures, groups),
        0 <= i < failures.len(),
    ensures
        exists|g: int|
            0 <= g < groups.len() && test_names((#[trigger] groups[g]).test_ids@).contains(
                failures[i].test_id@,
            ),
{
    broadcast use vstd::seq_lib::group_to_multiset_ensures;

    let fps = fingerprints_of(failures);
    let clusters = choose|clusters: Seq<Seq<int>>| #[trigger]
        are_clusters(fps, clusters) && groups_match(failures, clusters, groups);
    assert(in_some_cluster(clusters, i));
    let c = choose|c: int| 0 <= c < clusters.len() && (#[trigger] clusters[c]).contains(i);
    let cluster = clusters[c];
    let m = choose|m: int| 0 <= m < cluster.len() && cluster[m] == i;
    let names = names_at(failures, cluster);
    let t = failures[i].test_id@;
    assert(names[m] == t);
    assert(names.contains(t));
    crate::sort::sorted_texts_ascend(names);
    assert(names.to_multiset().count(t) > 0);
    assert(sorted_texts(names).to_multiset().count(t) > 0);
    assert(sorted_texts(names).contains(t));
    assert(is_group(failures, clusters[c], groups[c]));
    assert(test_names(groups[c].test_ids@).contains(t));
}

/// The larger groups come first.
pub proof fn larger_groups_come_first(
    failures: Seq<&TestResult>,
    groups: Seq<Group>,
    a: int,
    b: int,
)
    requires
        are_groups(failures, groups),
        0 <= a < b < groups.len(),
    ensures
        groups[a].test_ids@.len() >= groups[b].test_ids@.len(),
{
    assert(!groups[b].before(&groups[a]));
}

impl Command for SummarizeCommand {
    fn name(&self) -> (r: &str)
        ensures
            r@ == "summarize"@,
    {
        "summarize"
    }

    fn help(&self) -> (r: &str)
        ensures
            r@ == "Group a run's failures by their common, normalized traceback tail"@,
    {
        "Group a run's failures by their common, normalized traceback tail"
    }
}

} // verus!
