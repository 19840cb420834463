//! The tests of one part of a balanced division of the suite.

use vstd::prelude::*;
use vstd::string::*;

use crate::balance::{divided_nanos, parts_are_balanced, unknown_tests_go_in_turn};
use crate::collection::{has_key, Named, TextMap};
use crate::commands::Command;
use crate::error::{Error, Failure, Result};
use crate::grouping::group_key;
use crate::partition::{all_nanos, partition_part, partition_tests_with_grouping};
use crate::pattern::regex_error;
use crate::repository::{test_names, TestId};
use crate::sort::{sort_texts, sorted_texts};
use crate::text::compose::{cat2, cat3, chars, slice, texts};
use crate::text::number::{all_digits, count_text, decimal, decimal_round_trip, is_digit, parse_usize, parsed_nat};
use crate::text::scan::{first_index, first_index_is, trim, trimmed};
use crate::time::{Duration, MAX_NANOS};
use crate::ui::{outputs, Transcript};

verus! {

broadcast use {crate::text::compose::texts_push, crate::repository::test_names_push};

/// Command that prints the tests of one of several parts of the suite.
#[derive(Debug)]
pub struct ShardCommand {
    /// Where the project is.
    pub base_path: Option<String>,
    /// The number of the part, from zero.
    pub shard: usize,
    /// How many parts there are.
    pub total: usize,
    /// The pattern for groups in place of the configured one; empty for none.
    pub group_regex: Option<String>,
}

/// The number that a part of a specification denotes.
pub open spec fn spec_number(s: Seq<char>) -> Option<nat> {
    match parsed_nat(trimmed(s)) {
        Some(n) => if n <= usize::MAX {
            Some(n)
        } else {
            None
        },
        None => None,
    }
}

/// What is said of a specification that is not in order.
pub open spec fn spec_failure(spec: Seq<char>, problem: Seq<char>) -> Failure {
    Failure::Config("invalid shard spec '"@ + spec + "': "@ + problem)
}

/// The part, from zero, and the number of parts that `N/M` denotes.
pub open spec fn parsed_spec(spec: Seq<char>, zero_indexed: bool) -> core::result::Result<
    (nat, nat),
    Failure,
> {
    let i = first_index(spec, '/');
    let n = spec_number(spec.take(i));
    let m = spec_number(spec.skip(i + 1));
    if i >= spec.len() {
        Err(spec_failure(spec, "expected N/M (e.g. 1/4)"@))
    } else if n is None {
        Err(spec_failure(spec, "N must be a non-negative integer"@))
    } else if m is None {
        Err(spec_failure(spec, "M must be a non-negative integer"@))
    } else if m->0 == 0 {
        Err(spec_failure(spec, "M must be at least 1"@))
    } else if zero_indexed {
        if n->0 >= m->0 {
            Err(
                spec_failure(
                    spec,
                    "N must be in 0.."@ + decimal(m->0) + " when --zero-indexed"@,
                ),
            )
        } else {
            Ok((n->0, m->0))
        }
    } else if n->0 == 0 || n->0 > m->0 {
        Err(spec_failure(spec, "N must be in 1..="@ + decimal(m->0)))
    } else {
        Ok(((n->0 - 1) as nat, m->0))
    }
}

/// What is said of a specification that is not in order.
fn spec_error(spec: &str, problem: &str) -> (e: Error)
    ensures
        e@ == spec_failure(spec@, problem@),
{
    let mut m: String = cat3("invalid shard spec '", spec, "': ");
    m.append(problem);
    Error::Config(m)
}

/// The number that a part of a specification denotes.
fn spec_value(s: &str) -> (r: Option<usize>)
    ensures
        match spec_number(s@) {
            Some(n) => r == Some(n as usize),
            None => r is None,
        },
{
    parse_usize(trim(s).as_str())
}

impl ShardCommand {
    /// A command for the part `shard`, from zero, of `total`.
    pub fn new(
        base_path: Option<String>,
        shard: usize,
        total: usize,
        group_regex: Option<String>,
    ) -> (r: Self)
        ensures
            r == (ShardCommand { base_path, shard, total, group_regex }),
    {
        ShardCommand { base_path, shard, total, group_regex }
    }

    /// Reads `N/M`. Parts are counted from one, or from zero where that is asked for.
    pub fn parse_spec(spec: &str, zero_indexed: bool) -> (r: Result<(usize, usize)>)
        ensures
            match parsed_spec(spec@, zero_indexed) {
                Ok((n, m)) => r matches Ok(v) && v.0 == n && v.1 == m && v.0 < v.1,
                Err(f) => r matches Err(e) && e@ == f,
            },
    {
        let v: Vec<char> = chars(spec);
        let mut i: usize = 0;
        while i < v.len() && v[i] != '/'
            invariant
                i <= v@.len(),
                forall|k: int| 0 <= k < i ==> v@[k] != '/',
            decreases v@.len() - i,
        {
            i += 1;
        }
        proof {
            first_index_is(v@, '/', i as int);
        }
        if i == v.len() {
            return Err(spec_error(spec, "expected N/M (e.g. 1/4)"));
        }
        proof {
            assert(v@.take(i as int) =~= v@.subrange(0, i as int));
            assert(v@.skip(i + 1) =~= v@.subrange(i + 1, v@.len() as int));
        }
        let n_text: String = slice(&v, 0, i);
        let m_text: String = slice(&v, i + 1, v.len());
        let n: usize = match spec_value(n_text.as_str()) {
            Some(n) => n,
            None => {
                return Err(spec_error(spec, "N must be a non-negative integer"));
            },
        };
        let m: usize = match spec_value(m_text.as_str()) {
            Some(m) => m,
            None => {
                return Err(spec_error(spec, "M must be a non-negative integer"));
            },
        };
        if m == 0 {
            return Err(spec_error(spec, "M must be at least 1"));
        }
        if zero_indexed {
            if n >= m {
                let problem: String = cat3(
                    "N must be in 0..",
                    count_text(m).as_str(),
                    " when --zero-indexed",
                );
                return Err(spec_error(spec, problem.as_str()));
            }
            Ok((n, m))
        } else {
            if n == 0 || n > m {
                let problem: String = cat2("N must be in 1..=", count_text(m).as_str());
                return Err(spec_error(spec, problem.as_str()));
            }
            Ok((n - 1, m))
        }
    }

    /// The pattern for groups: that of the command where it has one, none where that is empty,
    /// else the configured one.
    pub fn effective_group_regex(&self, configured: &Option<String>) -> (r: Option<String>)
        ensures
            match self.group_regex {
                Some(s) => if s@.len() == 0 {
                    r is None
                } else {
                    r matches Some(t) && t@ == s@
                },
                None => r == *configured,
            },
    {
        match &self.group_regex {
            Some(s) => if s.as_str().is_empty() {
                None
            } else {
                Some(s.clone())
            },
            None => crate::repository::copy_text(configured),
        }
    }

    /// Prints the tests of the part, given all tests and how long they usually take.
    pub fn execute(
        &self,
        test_ids: &Vec<TestId>,
        durations: &TextMap<Duration>,
        configured: &Option<String>,
        ui: &mut Transcript,
    ) -> (r: Result<i32>)
        requires
            all_nanos(durations@, test_names(test_ids@)) <= MAX_NANOS,
        ensures
            match printed_shard(*self, test_names(test_ids@), durations@, *configured) {
                Ok(names) => r == Ok::<i32, Error>(0) && final(ui)@ == old(ui)@ + outputs(names),
                Err(f) => r matches Err(e) && e@ == f && final(ui)@ == old(ui)@,
            },
    {
        let pattern: Option<String> = self.effective_group_regex(configured);
        let p: Option<&str> = match &pattern {
            Some(s) => Some(s.as_str()),
            None => None,
        };
        match compute_shard(test_ids, durations, self.shard, self.total, p) {
            Err(e) => Err(e),
            Ok(ids) => {
                let mut lines: Vec<String> = Vec::new();
                for i in 0..ids.len()
                    invariant
                        texts(lines@) =~= test_names(ids@).take(i as int),
                {
                    lines.push(ids[i].as_str().to_owned());
                }
                assert(texts(lines@) =~= test_names(ids@));
                ui.output_all(&lines);
                Ok(0)
            },
        }
    }
}

/// The pattern for groups of a command: its own one, none where that is empty, else the configured
/// one.
pub open spec fn shard_pattern(c: ShardCommand, configured: Option<String>) -> Option<Seq<char>> {
    match c.group_regex {
        Some(s) => if s@.len() == 0 {
            None
        } else {
            Some(s@)
        },
        None => match configured {
            Some(p) => Some(p@),
            None => None,
        },
    }
}

/// What a command prints, given all tests and how long they usually take.
pub open spec fn printed_shard(
    c: ShardCommand,
    names: Seq<Seq<char>>,
    times: Seq<Named<Duration>>,
    configured: Option<String>,
) -> core::result::Result<Seq<Seq<char>>, Failure> {
    shard_of(names, times, c.shard as nat, c.total as nat, shard_pattern(c, configured))
}

/// The tests of one part.
pub open spec fn shard_of(
    names: Seq<Seq<char>>,
    times: Seq<Named<Duration>>,
    shard: nat,
    total: nat,
    pattern: Option<Seq<char>>,
) -> core::result::Result<Seq<Seq<char>>, Failure> {
    if pattern is Some && regex_error(pattern->0) is Some {
        Err(Failure::Config("invalid group_regex: "@ + regex_error(pattern->0)->0))
    } else if shard >= total {
        Err(Failure::Config("shard index "@ + decimal(shard) + " out of range"@))
    } else {
        Ok(partition_part(sorted_texts(names), times, total, pattern, shard as int))
    }
}

/// The tests of one part of a balanced division. The tests are sorted first, so that the order in
/// which they are listed does not matter.
pub fn compute_shard(
    test_ids: &Vec<TestId>,
    durations: &TextMap<Duration>,
    shard: usize,
    total: usize,
    group_regex: Option<&str>,
) -> (r: Result<Vec<TestId>>)
    requires
        all_nanos(durations@, test_names(test_ids@)) <= MAX_NANOS,
    ensures
        match shard_of(
            test_names(test_ids@),
            durations@,
            shard as nat,
            total as nat,
            match group_regex {
                Some(p) => Some(p@),
                None => None,
            },
        ) {
            Ok(names) => r matches Ok(v) && test_names(v@) == names,
            Err(f) => r matches Err(e) && e@ == f,
        },
{
    let mut names: Vec<String> = Vec::new();
    for i in 0..test_ids.len()
        invariant
            texts(names@) =~= test_names(test_ids@).take(i as int),
    {
        names.push(test_ids[i].as_str().to_owned());
    }
    assert(texts(names@) =~= test_names(test_ids@));
    let sorted: Vec<String> = sort_texts(&names);
    proof {
        crate::sort::sorted_texts_ascend(texts(names@));
        crate::partition::all_nanos_reordered(durations@, texts(sorted@), texts(names@));
    }
    match partition_tests_with_grouping(&sorted, durations, total, group_regex) {
        Err(e) => Err(Error::Config(cat2("invalid group_regex: ", e.as_str()))),
        Ok(parts) => {
            if shard >= parts.len() {
                return Err(
                    Error::Config(
                        cat3("shard index ", count_text(shard).as_str(), " out of range"),
                    ),
                );
            }
            let part: &Vec<String> = &parts[shard];
            let mut r: Vec<TestId> = Vec::new();
            for i in 0..part.len()
                invariant
                    test_names(r@) =~= texts(part@).take(i as int),
            {
                r.push(TestId::new(part[i].as_str()));
            }
            assert(test_names(r@) =~= texts(part@));
            Ok(r)
        },
    }
}

/// The shards of a suite hold every test of it, each as often as it is listed.
pub proof fn shards_cover_the_suite(
    names: Seq<Seq<char>>,
    times: Seq<Named<Duration>>,
    total: nat,
    pattern: Option<Seq<char>>,
)
    requires
        total > 0,
        pattern is Some ==> regex_error(pattern->0) is None,
    ensures
        crate::gather::gathered(
            |s: int| shard_of(names, times, s as nat, total, pattern)->Ok_0,
            total,
        ).to_multiset() == names.to_multiset(),
{
    crate::partition::parts_cover_all_tests(sorted_texts(names), times, total, pattern);
    crate::sort::sorted_texts_ascend(names);
    crate::gather::gathered_same(
        |s: int| shard_of(names, times, s as nat, total, pattern)->Ok_0,
        |s: int| partition_part(sorted_texts(names), times, total, pattern, s),
        total,
    );
}

/// The shard of a suite does not depend on the order in which its tests are listed.
pub proof fn shards_ignore_order(
    a: Seq<Seq<char>>,
    b: Seq<Seq<char>>,
    times: Seq<Named<Duration>>,
    shard: nat,
    total: nat,
    pattern: Option<Seq<char>>,
)
    requires
        a.to_multiset() == b.to_multiset(),
    ensures
        shard_of(a, times, shard, total, pattern) == shard_of(b, times, shard, total, pattern),
{
    crate::partition::parts_ignore_order(a, b, times, total, pattern, shard as int);
}

/// The shards are balanced: none takes longer than four thirds of the longest part of any other
/// division of the suite into as many parts, groups kept together. `at` tells the part of each test
/// of the sorted suite in the other division.
pub proof fn shards_are_balanced(
    names: Seq<Seq<char>>,
    times: Seq<Named<Duration>>,
    shard: nat,
    total: nat,
    pattern: Option<Seq<char>>,
    at: Seq<int>,
    longest: nat,
)
    requires
        shard < total,
        pattern is Some ==> regex_error(pattern->0) is None,
        all_nanos(times, names) <= MAX_NANOS,
        at.len() == names.len(),
        forall|i: int| 0 <= i < at.len() ==> 0 <= #[trigger] at[i] < total,
        pattern matches Some(p) ==> forall|i: int, j: int|
            0 <= i < names.len() && 0 <= j < names.len() && group_key(
                p,
                #[trigger] sorted_texts(names)[i],
            ) == group_key(p, #[trigger] sorted_texts(names)[j]) ==> at[i] == at[j],
        forall|q: int|
            0 <= q < total ==> #[trigger] divided_nanos(times, sorted_texts(names), at, q)
                <= longest,
    ensures
        shard_of(names, times, shard, total, pattern) matches Ok(part) && 3 * all_nanos(times, part)
            <= 4 * longest,
{
    crate::sort::sorted_texts_ascend(names);
    crate::partition::all_nanos_reordered(times, sorted_texts(names), names);
    parts_are_balanced(sorted_texts(names), times, total, pattern, at, longest, shard as int);
}

/// Where nothing is known of the tests, the shards take the sorted tests in turn, so that no shard
/// has two tests more than another.
pub proof fn shards_without_history_take_turns(
    names: Seq<Seq<char>>,
    times: Seq<Named<Duration>>,
    shard: nat,
    total: nat,
)
    requires
        shard < total,
        forall|i: int| 0 <= i < names.len() ==> !has_key(times, #[trigger] names[i]),
    ensures
        shard_of(names, times, shard, total, None) matches Ok(part) && part.len() == names.len()
            / total + (if shard < names.len() as int % total as int {
            1int
        } else {
            0
        }) && forall|i: int|
            0 <= i < names.len() && i % total as int == shard ==> part.contains(
                #[trigger] sorted_texts(names)[i],
            ),
{
    broadcast use vstd::seq_lib::group_to_multiset_ensures;

    let sorted = sorted_texts(names);
    crate::sort::sorted_texts_ascend(names);
    assert forall|i: int| 0 <= i < sorted.len() implies !has_key(times, #[trigger] sorted[i]) by {
        assert(sorted.contains(sorted[i]));
        assert(sorted.to_multiset().count(sorted[i]) > 0);
        assert(names.contains(sorted[i]));
        let k = choose|k: int| 0 <= k < names.len() && names[k] == sorted[i];
        assert(!has_key(times, names[k]));
    }
    unknown_tests_go_in_turn(sorted, times, total, shard as int);
}

/// A test is in at most one shard, where no test is listed twice: two machines that take different
/// shards of the same suite share no test.
pub proof fn shards_are_disjoint(
    names: Seq<Seq<char>>,
    times: Seq<Named<Duration>>,
    a: nat,
    b: nat,
    total: nat,
    pattern: Option<Seq<char>>,
    t: Seq<char>,
)
    requires
        a < total,
        b < total,
        a != b,
        pattern is Some ==> regex_error(pattern->0) is None,
        names.no_duplicates(),
        shard_of(names, times, a, total, pattern)->Ok_0.contains(t),
    ensures
        !shard_of(names, times, b, total, pattern)->Ok_0.contains(t),
{
    broadcast use vstd::seq_lib::group_to_multiset_ensures;

    let part = |s: int| shard_of(names, times, s as nat, total, pattern)->Ok_0;
    let all = crate::gather::gathered(part, total);
    shards_cover_the_suite(names, times, total, pattern);
    names.lemma_multiset_has_no_duplicates();
    assert(all.to_multiset() == names.to_multiset());
    all.lemma_multiset_has_no_duplicates_conv();
    if part(b as int).contains(t) {
        let x = part(a as int);
        let y = part(b as int);
        let i = choose|i: int| 0 <= i < x.len() && x[i] == t;
        let j = choose|j: int| 0 <= j < y.len() && y[j] == t;
        gathered_in_two_places(part, total, a as int, i, b as int, j);
    }
}

/// What stands in two parts stands in two places of what is put together.
proof fn gathered_in_two_places(
    part: spec_fn(int) -> Seq<Seq<char>>,
    n: nat,
    a: int,
    i: int,
    b: int,
    j: int,
)
    requires
        0 <= a < n,
        0 <= b < n,
        a != b,
        0 <= i < part(a).len(),
        0 <= j < part(b).len(),
        part(a)[i] == part(b)[j],
    ensures
        !crate::gather::gathered(part, n).no_duplicates(),
    decreases n,
{
    let all = crate::gather::gathered(part, n);
    let before = crate::gather::gathered(part, (n - 1) as nat);
    if a < n - 1 && b < n - 1 {
        gathered_in_two_places(part, (n - 1) as nat, a, i, b, j);
        assert(exists|x: int, y: int|
            0 <= x < before.len() && 0 <= y < before.len() && x != y && before[x] == before[y]);
        let (x, y) = choose|x: int, y: int|
            0 <= x < before.len() && 0 <= y < before.len() && x != y && before[x] == before[y];
        assert(all[x] == all[y]);
    } else if a < n - 1 {
        let x = crate::gather::gathered_holds(part, (n - 1) as nat, a, i);
        assert(all[x] == all[before.len() + j]);
    } else {
        let x = crate::gather::gathered_holds(part, (n - 1) as nat, b, j);
        assert(all[x] == all[before.len() + i]);
    }
}

/// Commands for all the parts of a suite, one each, print every test of it as often as it is listed,
/// whatever pattern for groups they have.
pub proof fn commands_print_the_whole_suite(
    commands: Seq<ShardCommand>,
    names: Seq<Seq<char>>,
    times: Seq<Named<Duration>>,
    configured: Option<String>,
)
    requires
        commands.len() > 0,
        forall|i: int|
            0 <= i < commands.len() ==> (#[trigger] commands[i]).shard == i && commands[i].total
                == commands.len() && commands[i].group_regex == commands[0].group_regex,
        shard_pattern(commands[0], configured) matches Some(p) ==> regex_error(p) is None,
    ensures
        forall|i: int|
            0 <= i < commands.len() ==> printed_shard(
                #[trigger] commands[i],
                names,
                times,
                configured,
            ) is Ok,
        crate::gather::gathered(
            |i: int| printed_shard(commands[i], names, times, configured)->Ok_0,
            commands.len(),
        ).to_multiset() == names.to_multiset(),
{
    let pattern = shard_pattern(commands[0], configured);
    shards_cover_the_suite(names, times, commands.len(), pattern);
    assert forall|i: int| 0 <= i < commands.len() implies #[trigger] printed_shard(
        commands[i],
        names,
        times,
        configured,
    ) == shard_of(names, times, i as nat, commands.len(), pattern) by {
        assert(commands[i].shard == i);
    }
    crate::gather::gathered_same(
        |i: int| printed_shard(commands[i], names, times, configured)->Ok_0,
        |s: int| shard_of(names, times, s as nat, commands.len(), pattern)->Ok_0,
        commands.len(),
    );
}

/// What a command prints is balanced as its shard is, with groups by the pattern in effect: a
/// pattern of its own goes before the configured one, and an empty one stands for none.
pub proof fn printed_shards_are_balanced(
    c: ShardCommand,
    names: Seq<Seq<char>>,
    times: Seq<Named<Duration>>,
    configured: Option<String>,
    at: Seq<int>,
    longest: nat,
)
    requires
        c.shard < c.total,
        all_nanos(times, names) <= MAX_NANOS,
        at.len() == names.len(),
        forall|i: int| 0 <= i < at.len() ==> 0 <= #[trigger] at[i] < c.total,
        forall|q: int|
            0 <= q < c.total ==> #[trigger] divided_nanos(times, sorted_texts(names), at, q)
                <= longest,
        match c.group_regex {
            Some(s) => s@.len() == 0,
            None => configured is None,
        },
    ensures
        printed_shard(c, names, times, configured) matches Ok(part) && 3 * all_nanos(times, part)
            <= 4 * longest,
{
    shards_are_balanced(
        names,
        times,
        c.shard as nat,
        c.total as nat,
        None,
        at,
        longest,
    );
}

/// A pattern for groups that a command has goes before the configured one.
pub proof fn own_pattern_goes_before_the_configured_one(
    c: ShardCommand,
    names: Seq<Seq<char>>,
    times: Seq<Named<Duration>>,
    a: Option<String>,
    b: Option<String>,
)
    requires
        c.group_regex is Some,
    ensures
        printed_shard(c, names, times, a) == printed_shard(c, names, times, b),
        c.group_regex->0@.len() > 0 && regex_error(c.group_regex->0@) is Some ==> printed_shard(
            c,
            names,
            times,
            a,
        ) is Err,
{
}

/// The number that is asked for counts from one, or from zero where that is asked for, and lies
/// within the number of parts.
pub proof fn specs_count_as_asked(n: nat, m: nat, zero_indexed: bool)
    requires
        n <= usize::MAX,
        m <= usize::MAX,
    ensures
        ({
            let r = parsed_spec(decimal(n) + "/"@ + decimal(m), zero_indexed);
            &&& zero_indexed && n < m ==> r == Ok::<(nat, nat), Failure>((n, m))
            &&& !zero_indexed && 0 < n <= m ==> r == Ok::<(nat, nat), Failure>(((n - 1) as nat, m))
            &&& r is Ok ==> if zero_indexed {
                n < m
            } else {
                0 < n <= m
            }
        }),
{
    let s = decimal(n) + "/"@ + decimal(m);
    reveal_strlit("/");
    decimal_round_trip(n);
    decimal_round_trip(m);
    let i = decimal(n).len() as int;
    assert forall|k: int| 0 <= k < i implies s[k] != '/' by {
        assert(is_digit(decimal(n)[k]));
    }
    first_index_is(s, '/', i);
    assert(s.take(i) =~= decimal(n));
    assert(s.skip(i + 1) =~= decimal(m));
    digits_are_trimmed(decimal(n));
    digits_are_trimmed(decimal(m));
}

/// A row of digits has no blanks around it.
proof fn digits_are_trimmed(s: Seq<char>)
    requires
        all_digits(s),
        s.len() > 0,
    ensures
        trimmed(s) == s,
{
    assert(is_digit(s[0]));
    assert(is_digit(s[s.len() - 1]));
}

impl Command for ShardCommand {
    fn name(&self) -> (r: &str)
        ensures
            r@ == "shard"@,
    {
        "shard"
    }

    fn help(&self) -> (r: &str)
        ensures
            r@ == "Print the test IDs assigned to one shard of a balanced split"@,
    {
        "Print the test IDs assigned to one shard of a balanced split"
    }
}

} // verus!
