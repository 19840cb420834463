//! What holds of the workflow commands for failures.

use vstd::prelude::*;

use crate::commands::ci::hard_names;
use crate::commands::ci_report::{first_colons, is_hard, is_kept, kept_lines, title_among, title_of, titles_of};
use crate::commands::export::{annotation_params, error_annotation, escaped_data, data_code, data_part, escaped_param, escaped_param_is_closed, github_part, headline, param_code, param_part, place_of_result, Location};
use crate::config::layer::optional_text;
use crate::gather::gathered;
use crate::repository::{is_failure, status_text, TestId, TestResult};
use crate::text::compose::{joined, terminated};
use crate::text::number::{decimal, decimal_round_trip};
use crate::text::scan::{ends_line, has_prefix, has_text, lines_of, lines_push, occurs_at, pieces_of_joined};

verus! {

/// Whether a text holds neither colons nor commas nor line ends.
pub open spec fn is_closed(s: Seq<char>) -> bool {
    forall|i: int|
        0 <= i < s.len() ==> {
            let c = #[trigger] s[i];
            c != ':' && c != ',' && c != '\r' && c != '\n'
        }
}

/// A closed text behind another.
proof fn closed_joins(a: Seq<char>, b: Seq<char>)
    requires
        is_closed(a),
        is_closed(b),
    ensures
        is_closed(a + b),
{
    let s = a + b;
    assert forall|i: int| 0 <= i < s.len() implies {
        let c = #[trigger] s[i];
        c != ':' && c != ',' && c != '\r' && c != '\n'
    } by {
        if i < a.len() {
            assert(s[i] == a[i]);
        } else {
            assert(s[i] == b[i - a.len()]);
        }
    }
}

/// A number in decimal is closed.
proof fn decimal_is_closed(n: nat)
    ensures
        is_closed(decimal(n)),
{
    decimal_round_trip(n);
    let d = decimal(n);
    assert forall|i: int| 0 <= i < d.len() implies {
        let c = #[trigger] d[i];
        c != ':' && c != ',' && c != '\r' && c != '\n'
    } by {
        assert(crate::text::number::is_digit(d[i]));
    }
}

/// The parameters of a workflow command are closed, and only the last is a title.
proof fn params_are_closed(place: Option<Location>, title: Seq<char>)
    requires
        is_closed(title),
    ensures
        ({
            let list = annotation_params(place, title);
            &&& list.len() > 0
            &&& forall|i: int| 0 <= i < list.len() ==> is_closed(#[trigger] list[i])
            &&& forall|i: int|
                0 <= i < list.len() - 1 ==> !has_prefix(#[trigger] list[i], "title="@)
            &&& list.last() == "title="@ + title
        }),
{
    reveal_strlit("file=");
    reveal_strlit("line=");
    reveal_strlit("col=");
    reveal_strlit("title=");
    let t = "title="@;
    closed_joins(t, title);
    let list = annotation_params(place, title);
    match place {
        Some(p) => {
            escaped_param_is_closed(p.file);
            closed_joins("file="@, escaped_param(p.file));
            decimal_is_closed(p.line);
            closed_joins("line="@, decimal(p.line));
            assert(list[0] == "file="@ + escaped_param(p.file));
            assert(list[1] == "line="@ + decimal(p.line));
            assert(list[0][0] == 'f' && list[1][0] == 'l');
            match p.col {
                Some(c) => {
                    decimal_is_closed(c);
                    closed_joins("col="@, decimal(c));
                    assert(list[2] == "col="@ + decimal(c));
                    assert(list[2][0] == 'c');
                },
                None => {},
            }
        },
        None => {},
    }
    assert forall|i: int| 0 <= i < list.len() - 1 implies !has_prefix(#[trigger] list[i], t) by {
        if has_prefix(list[i], t) {
            assert(list[i].take(t.len() as int)[0] == t[0]);
        }
    }
}

/// Joined closed texts hold no colons.
proof fn joined_without_colons(list: Seq<Seq<char>>)
    requires
        forall|i: int| 0 <= i < list.len() ==> is_closed(#[trigger] list[i]),
    ensures
        forall|k: int|
            0 <= k < joined(list, seq![',']).len() ==> {
                let c = #[trigger] joined(list, seq![','])[k];
                c != ':' && c != '\r' && c != '\n'
            },
    decreases list.len(),
{
    let j = joined(list, seq![',']);
    if list.len() == 1 {
        assert(is_closed(list[0]));
        assert forall|k: int| 0 <= k < j.len() implies {
            let c = #[trigger] j[k];
            c != ':' && c != '\r' && c != '\n'
        } by {
            assert(list[0][k] == j[k]);
        }
    } else if list.len() > 1 {
        let init = list.drop_last();
        assert forall|i: int| 0 <= i < init.len() implies is_closed(#[trigger] init[i]) by {
            assert(is_closed(list[i]));
        }
        joined_without_colons(init);
        let a = joined(init, seq![',']);
        let b = list.last();
        assert(is_closed(list[list.len() - 1]));
        assert forall|k: int| 0 <= k < j.len() implies {
            let c = #[trigger] j[k];
            c != ':' && c != '\r' && c != '\n'
        } by {
            if k < a.len() {
                assert(j[k] == a[k]);
            } else if k > a.len() {
                assert(j[k] == b[k - a.len() - 1]);
            }
        }
    }
}

/// The first colons of a text come behind a start without colons.
proof fn colons_behind(a: Seq<char>, b: Seq<char>, from: int)
    requires
        0 <= from <= a.len(),
        forall|k: int| 0 <= k < a.len() ==> a[k] != ':',
    ensures
        first_colons(a + "::"@ + b, from) == a.len(),
    decreases a.len() - from,
{
    reveal_strlit("::");
    let p = "::"@;
    let s = a + p + b;
    if from < a.len() {
        if occurs_at(s, p, from) {
            assert(s.subrange(from, from + 2)[0] == p[0]);
            assert(s[from] == a[from]);
        }
        colons_behind(a, b, from + 1);
    } else {
        assert(s.subrange(from, from + 2) =~= p);
    }
}

/// The title is found behind parameters that are none.
proof fn title_is_last(list: Seq<Seq<char>>, title: Seq<char>)
    requires
        list.len() > 0,
        forall|i: int| 0 <= i < list.len() - 1 ==> !has_prefix(#[trigger] list[i], "title="@),
        list.last() == "title="@ + title,
    ensures
        title_among(list) == Some(title),
    decreases list.len(),
{
    reveal_strlit("title=");
    if list.len() == 1 {
        assert(list[0].take(6) =~= "title="@);
        assert(list[0].skip(6) =~= title);
    } else {
        assert(!has_prefix(list[0], "title="@));
        let rest = list.drop_first();
        assert forall|i: int| 0 <= i < rest.len() - 1 implies !has_prefix(
            #[trigger] rest[i],
            "title="@,
        ) by {
            assert(rest[i] == list[i + 1]);
        }
        title_is_last(rest, title);
    }
}

/// The workflow command for a failure without its line feed.
pub open spec fn error_line(r: TestResult) -> Seq<char> {
    "::error "@ + joined(
        annotation_params(place_of_result(r.details), escaped_param(r.test_id@)),
        ","@,
    ) + "::"@ + escaped_data(headline(optional_text(r.message), status_text(r.status)))
}

/// The workflow command for a failure is a line.
proof fn error_is_line(r: TestResult)
    requires
        is_failure(r.status),
    ensures
        error_annotation(r) == error_line(r) + seq!['\n'],
        forall|k: int|
            0 <= k < error_line(r).len() ==> error_line(r)[k] != '\n' && error_line(r)[k] != '\r',
{
    reveal_strlit("::");
    reveal_strlit("error");
    reveal_strlit(" ");
    reveal_strlit("::error ");
    reveal_strlit("\n");
    reveal_strlit(",");
    assert("::"@ + "error"@ + " "@ =~= "::error "@);
    assert("\n"@ =~= seq!['\n']);
    assert(","@ =~= seq![',']);
    assert(error_annotation(r) =~= error_line(r) + seq!['\n']);
    let title = escaped_param(r.test_id@);
    escaped_param_is_closed(r.test_id@);
    let list = annotation_params(place_of_result(r.details), title);
    params_are_closed(place_of_result(r.details), title);
    joined_without_colons(list);
    let a = "::error "@;
    let b = joined(list, ","@);
    let message = headline(optional_text(r.message), status_text(r.status));
    let d = escaped_data(message);
    data_has_no_line_ends(message);
    let s = error_line(r);
    assert forall|k: int| 0 <= k < s.len() implies s[k] != '\n' && s[k] != '\r' by {
        if k < 8 {
            assert(s[k] == a[k]);
        } else if k < 8 + b.len() {
            assert(s[k] == b[k - 8]);
        } else if k < 8 + b.len() + 2 {
            assert(s[k] == "::"@[k - 8 - b.len()]);
        } else {
            assert(s[k] == d[k - 8 - b.len() - 2]);
        }
    }
}

/// A message holds no line ends.
proof fn data_has_no_line_ends(s: Seq<char>)
    ensures
        forall|i: int|
            0 <= i < escaped_data(s).len() ==> {
                let c = #[trigger] escaped_data(s)[i];
                c != '\r' && c != '\n'
            },
{
    reveal_strlit("%25");
    reveal_strlit("%0D");
    reveal_strlit("%0A");
    assert forall|i: int| 0 <= i < escaped_data(s).len() implies {
        let c = #[trigger] escaped_data(s)[i];
        c != '\r' && c != '\n'
    } by {
        let (a, b) = crate::gather::gathered_element(data_part(s), s.len(), i);
        assert(data_part(s)(a) == data_code(s[a]));
    }
}

/// The title of the workflow command for a failure is the name of its test.
pub proof fn title_is_name(r: TestResult)
    requires
        is_failure(r.status),
    ensures
        title_of(error_line(r)) == Some(escaped_param(r.test_id@)),
{
    reveal_strlit("::error ");
    reveal_strlit(",");
    assert(","@ =~= seq![',']);
    let title = escaped_param(r.test_id@);
    escaped_param_is_closed(r.test_id@);
    let list = annotation_params(place_of_result(r.details), title);
    params_are_closed(place_of_result(r.details), title);
    joined_without_colons(list);
    let j = joined(list, ","@);
    let d = escaped_data(headline(optional_text(r.message), status_text(r.status)));
    let s = error_line(r);
    assert(s.take(8) =~= "::error "@);
    let rest = s.skip(8);
    assert(rest =~= j + "::"@ + d);
    assert forall|k: int| 0 <= k < j.len() implies j[k] != ':' by {
        assert(joined(list, seq![','])[k] == j[k]);
    }
    colons_behind(j, d, 0);
    assert(rest.take(j.len() as int) =~= j);
    assert forall|i: int, k: int| 0 <= i < list.len() && 0 <= k < list[i].len() implies
        #[trigger] list[i][k] != ',' by {
        assert(is_closed(list[i]));
    }
    pieces_of_joined(list, ',');
    title_is_last(list, title);
}

/// The code of the first character comes first.
proof fn escaped_from_front(s: Seq<char>, n: nat)
    requires
        0 < n <= s.len(),
    ensures
        gathered(param_part(s), n) == param_code(s[0]) + gathered(
            param_part(s.drop_first()),
            (n - 1) as nat,
        ),
    decreases n,
{
    let t = s.drop_first();
    if n > 1 {
        escaped_from_front(s, (n - 1) as nat);
        assert(param_part(s)(n - 1) == param_part(t)(n - 2));
        assert(gathered(param_part(s), n) =~= param_code(s[0]) + gathered(
            param_part(t),
            (n - 1) as nat,
        ));
    } else {
        reveal_with_fuel(gathered, 2);
        assert(gathered(param_part(s), 1) =~= param_code(s[0]) + gathered(param_part(t), 0));
    }
}

/// Different characters have different codes, of which none starts another.
proof fn codes_differ(a: char, b: char, x: Seq<char>, y: Seq<char>)
    requires
        param_code(a) + x == param_code(b) + y,
    ensures
        a == b,
        x == y,
{
    reveal_strlit("%25");
    reveal_strlit("%0D");
    reveal_strlit("%0A");
    reveal_strlit("%3A");
    reveal_strlit("%2C");
    let s = param_code(a) + x;
    let t = param_code(b) + y;
    assert(s[0] == t[0]);
    assert(s[0] == param_code(a)[0] && t[0] == param_code(b)[0]);
    if param_code(a).len() == 3 && param_code(b).len() == 3 {
        assert(s[1] == param_code(a)[1] && t[1] == param_code(b)[1]);
        assert(s[2] == param_code(a)[2] && t[2] == param_code(b)[2]);
    }
    assert(a == b);
    let n = param_code(a).len() as int;
    assert(s.skip(n) =~= x);
    assert(t.skip(n) =~= y);
}

/// Different texts are encoded differently.
pub proof fn encoding_is_injective(a: Seq<char>, b: Seq<char>)
    requires
        escaped_param(a) == escaped_param(b),
    ensures
        a == b,
    decreases a.len(),
{
    reveal_strlit("%25");
    reveal_strlit("%0D");
    reveal_strlit("%0A");
    reveal_strlit("%3A");
    reveal_strlit("%2C");
    if a.len() > 0 {
        escaped_from_front(a, a.len());
        assert(escaped_param(a).len() > 0);
    }
    if b.len() > 0 {
        escaped_from_front(b, b.len());
        assert(escaped_param(b).len() > 0);
    }
    if a.len() > 0 && b.len() > 0 {
        let x = a.drop_first();
        let y = b.drop_first();
        codes_differ(a[0], b[0], escaped_param(x), escaped_param(y));
        encoding_is_injective(x, y);
        assert(a =~= seq![a[0]] + x);
        assert(b =~= seq![b[0]] + y);
    } else {
        assert(a =~= b);
    }
}

/// A failure that did not pass when it was run again is listed, and only such a one is.
proof fn hard_names_are(s: Seq<TestResult>, flaky: Seq<TestId>, t: Seq<char>)
    ensures
        has_text(hard_names(s, flaky), t) <==> exists|i: int|
            0 <= i < s.len() && is_hard(#[trigger] s[i], flaky) && s[i].test_id@ == t,
    decreases s.len(),
{
    let names = hard_names(s, flaky);
    if s.len() > 0 {
        let init = s.drop_last();
        let before = hard_names(init, flaky);
        hard_names_are(init, flaky, t);
        if has_text(names, t) {
            let k = choose|k: int| 0 <= k < names.len() && #[trigger] names[k] == t;
            if k < before.len() {
                assert(before[k] == t);
                let i = choose|i: int|
                    0 <= i < init.len() && is_hard(#[trigger] init[i], flaky) && init[i].test_id@
                        == t;
                assert(is_hard(s[i], flaky) && s[i].test_id@ == t);
            } else {
                assert(is_hard(s[s.len() - 1], flaky));
            }
        }
        if exists|i: int| 0 <= i < s.len() && is_hard(#[trigger] s[i], flaky) && s[i].test_id@ == t {
            let i = choose|i: int|
                0 <= i < s.len() && is_hard(#[trigger] s[i], flaky) && s[i].test_id@ == t;
            if i < init.len() {
                assert(is_hard(init[i], flaky) && init[i].test_id@ == t);
                let k = choose|k: int| 0 <= k < before.len() && #[trigger] before[k] == t;
                assert(names[k] == t);
            } else {
                assert(names[names.len() - 1] == t);
            }
        }
    }
}

/// The command for a failure is kept exactly if the failure did not pass when it was run again.
proof fn kept_are_hard(s: Seq<TestResult>, flaky: Seq<TestId>, i: int)
    requires
        0 <= i < s.len(),
        is_failure(s[i].status),
    ensures
        is_kept(error_line(s[i]), titles_of(hard_names(s, flaky))) == is_hard(s[i], flaky),
{
    let names = hard_names(s, flaky);
    let titles = titles_of(names);
    let t = s[i].test_id@;
    title_is_name(s[i]);
    hard_names_are(s, flaky, t);
    if is_hard(s[i], flaky) {
        let k = choose|k: int| 0 <= k < names.len() && #[trigger] names[k] == t;
        assert(titles[k] == escaped_param(t));
    }
    if has_text(titles, escaped_param(t)) {
        let k = choose|k: int| 0 <= k < titles.len() && #[trigger] titles[k] == escaped_param(t);
        encoding_is_injective(names[k], t);
        assert(names[k] == t);
    }
}

/// The commands for the failures that did not pass when they were run again.
pub open spec fn hard_part(s: Seq<TestResult>, flaky: Seq<TestId>) -> spec_fn(int) -> Seq<char> {
    |i: int|
        if is_hard(s[i], flaky) {
            error_annotation(s[i])
        } else {
            Seq::empty()
        }
}

/// Of the commands for the failures of a run, those are kept that are for failures that did not
/// pass when they were run again, in the same order.
pub proof fn kept_commands_are_for_hard_failures(s: Seq<TestResult>, flaky: Seq<TestId>)
    ensures
        terminated(
            kept_lines(
                lines_of(gathered(github_part(s), s.len())),
                titles_of(hard_names(s, flaky)),
            ),
            "\n"@,
        ) == gathered(hard_part(s, flaky), s.len()),
{
    kept_so_far(s, flaky, s.len());
}

/// The same of the first `n` results.
proof fn kept_so_far(s: Seq<TestResult>, flaky: Seq<TestId>, n: nat)
    requires
        n <= s.len(),
    ensures
        ends_line(gathered(github_part(s), n)),
        terminated(
            kept_lines(
                lines_of(gathered(github_part(s), n)),
                titles_of(hard_names(s, flaky)),
            ),
            "\n"@,
        ) == gathered(hard_part(s, flaky), n),
    decreases n,
{
    reveal_strlit("\n");
    assert("\n"@ =~= seq!['\n']);
    let titles = titles_of(hard_names(s, flaky));
    if n == 0 {
        assert(gathered(github_part(s), 0) =~= Seq::<char>::empty());
        assert(lines_of(Seq::<char>::empty()) =~= Seq::<Seq<char>>::empty());
        assert(kept_lines(Seq::empty(), titles) =~= Seq::<Seq<char>>::empty());
    } else {
        let m = (n - 1) as nat;
        kept_so_far(s, flaky, m);
        let x = gathered(github_part(s), m);
        let r = s[n - 1];
        assert(github_part(s)(n - 1) == error_annotation(r));
        if is_failure(r.status) {
            let line = error_line(r);
            error_is_line(r);
            lines_push(x, line);
            assert(x + (line + seq!['\n']) =~= x + line + seq!['\n']);
            let before = lines_of(x);
            let after = before.push(line);
            assert(after.drop_last() =~= before);
            kept_are_hard(s, flaky, n - 1);
            let kept = kept_lines(before, titles);
            if is_hard(r, flaky) {
                assert(kept.push(line).drop_last() =~= kept);
                assert(terminated(kept.push(line), "\n"@) =~= terminated(kept, "\n"@) + (line
                    + seq!['\n']));
            } else {
                assert(gathered(hard_part(s, flaky), n) =~= gathered(hard_part(s, flaky), m));
            }
        } else {
            assert(gathered(github_part(s), n) =~= x);
            assert(gathered(hard_part(s, flaky), n) =~= gathered(hard_part(s, flaky), m));
        }
    }
}

} // verus!
