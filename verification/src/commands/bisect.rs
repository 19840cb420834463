//! Finding the commit that broke a test.
//!
//! Which commits to start from is decided here; running git is left to the caller.

use vstd::prelude::*;
use vstd::string::*;

use crate::collection::{entry_of, has_key};
use crate::commands::Command;
use crate::config::layer::optional_text;
use crate::error::{failure_text, Error, Failure, Result};
use crate::pattern::{escape, escaped};
use crate::repository::{is_failure, RunId};
use crate::store::{Store, StoredRun};
use crate::text::bytes::{count_bytes, head_bytes, take_bytes, text_bytes};
use crate::text::compose::{cat2, cat3, cat4, cat5, chars, join_terminated, terminated, texts};
use crate::text::number::decimal;
use crate::text::order::text_eq;
use crate::text::scan::{has_prefix, trim, trim_end, trimmed, trimmed_end};
use crate::ui::{outputs, Line, Transcript};

verus! {

/// Command that finds the commit that broke a test.
#[derive(Debug)]
pub struct BisectCommand {
    /// Where the project is.
    pub base_path: Option<String>,
    /// The test.
    pub target_test: String,
    /// A commit at which the test passes.
    pub good_commit: Option<String>,
    /// A commit at which the test fails.
    pub bad_commit: Option<String>,
}

/// A run and the commit that it tested.
#[derive(Debug)]
pub struct Anchor {
    /// The run.
    pub run: RunId,
    /// The commit.
    pub commit: String,
}

/// The latest runs in which a test passed and failed.
#[derive(Debug)]
pub struct HistoryScan {
    /// The latest in which it passed.
    pub last_good: Option<Anchor>,
    /// The latest in which it failed.
    pub last_bad: Option<Anchor>,
}

/// Whether a run tells of a commit that a test fails there, or that it passes there. A run with
/// uncommitted changes tells nothing of its commit.
pub open spec fn tells(r: StoredRun, t: Seq<char>, fails: bool) -> bool {
    &&& r.metadata.git_commit is Some
    &&& r.metadata.git_dirty != Some(true)
    &&& has_key(r.run.results@, t)
    &&& is_failure(entry_of(r.run.results@, t).status) == fails
}

/// The latest run that tells that a test fails, or that it passes, with its commit.
pub open spec fn latest(runs: Seq<StoredRun>, t: Seq<char>, fails: bool) -> Option<
    (Seq<char>, Seq<char>),
>
    decreases runs.len(),
{
    if runs.len() == 0 {
        None
    } else if tells(runs.last(), t, fails) {
        Some((runs.last().run.id@, runs.last().metadata.git_commit->0@))
    } else {
        latest(runs.drop_last(), t, fails)
    }
}

/// The names of a run and its commit.
pub open spec fn anchor_view(a: Option<Anchor>) -> Option<(Seq<char>, Seq<char>)> {
    match a {
        Some(x) => Some((x.run@, x.commit@)),
        None => None,
    }
}

/// A commit, cut to twelve bytes.
pub open spec fn short_text(commit: Seq<char>) -> Seq<char> {
    if text_bytes(commit) <= 12 {
        commit
    } else {
        head_bytes(commit, 12)
    }
}

/// A commit, cut to twelve bytes.
pub fn short_commit(commit: &str) -> (s: String)
    ensures
        s@ == short_text(commit@),
{
    if count_bytes(commit) <= 12 {
        commit.to_owned()
    } else {
        take_bytes(commit, 12)
    }
}

/// A text with each single quote written so that a shell takes it as such.
pub open spec fn quotes_escaped(s: Seq<char>) -> Seq<char>
    decreases s.len(),
{
    if s.len() == 0 {
        s
    } else if s.last() == '\'' {
        quotes_escaped(s.drop_last()) + "'\\''"@
    } else {
        quotes_escaped(s.drop_last()).push(s.last())
    }
}

/// A text in single quotes for a shell.
pub open spec fn quoted(s: Seq<char>) -> Seq<char> {
    seq!['\''] + quotes_escaped(s) + seq!['\'']
}

/// A text in single quotes for a shell.
pub fn sh_quote(s: &str) -> (r: String)
    ensures
        r@ == quoted(s@),
{
    let v: Vec<char> = chars(s);
    let mut out = String::new();
    out.push('\'');
    for i in 0..v.len()
        invariant
            out@ =~= seq!['\''] + quotes_escaped(v@.take(i as int)),
    {
        assert(v@.take(i + 1).drop_last() =~= v@.take(i as int));
        if v[i] == '\'' {
            out.append("'\\''");
        } else {
            out.push(v[i]);
        }
    }
    assert(v@.take(v@.len() as int) =~= v@);
    out.push('\'');
    assert(out@ =~= quoted(s@));
    out
}

/// What a shell makes of a text that follows a single quote, where `open` tells whether the quote
/// is still open: the text that it stands for, or nothing where the quotes do not match.
pub open spec fn unquoted(s: Seq<char>, open: bool) -> Option<Seq<char>>
    decreases s.len(),
{
    if s.len() == 0 {
        if open {
            None
        } else {
            Some(Seq::empty())
        }
    } else if s[0] == '\'' {
        unquoted(s.drop_first(), !open)
    } else if !open && s[0] == '\\' && s.len() > 1 {
        match unquoted(s.skip(2), open) {
            Some(rest) => Some(seq![s[1]] + rest),
            None => None,
        }
    } else if open {
        match unquoted(s.drop_first(), open) {
            Some(rest) => Some(seq![s[0]] + rest),
            None => None,
        }
    } else {
        None
    }
}

/// The escaped form of a text inside quotes, followed by something else.
proof fn unquoting_passes(s: Seq<char>, rest: Seq<char>)
    ensures
        unquoted(quotes_escaped(s) + rest, true) == match unquoted(rest, true) {
            Some(r) => Some(s + r),
            None => None,
        },
    decreases s.len(),
{
    if s.len() == 0 {
        assert(quotes_escaped(s) + rest =~= rest);
        match unquoted(rest, true) {
            Some(r) => {
                assert(s + r =~= r);
            },
            None => {},
        }
    } else {
        let init = s.drop_last();
        let c = s.last();
        let here = if c == '\'' {
            "'\\''"@
        } else {
            seq![c]
        };
        let more = here + rest;
        assert(quotes_escaped(s) + rest =~= quotes_escaped(init) + more);
        unquoting_passes(init, more);
        if c == '\'' {
            reveal_strlit("'\\''");
            assert(more.len() == 4 + rest.len());
            let a = more.drop_first();
            assert(more[0] == '\'');
            assert(a[0] == '\\' && a[1] == '\'' && a.len() > 1);
            let b = a.skip(2);
            assert(b[0] == '\'');
            assert(b.drop_first() =~= rest);
            assert(unquoted(b, false) == unquoted(rest, true));
            assert(unquoted(a, false) == match unquoted(b, false) {
                Some(r) => Some(seq!['\''] + r),
                None => None,
            });
            assert(unquoted(more, true) == unquoted(a, false));
        } else {
            assert(more[0] == c);
            assert(more.drop_first() =~= rest);
        }
        match unquoted(rest, true) {
            Some(r) => {
                assert(init + (seq![c] + r) =~= s + r);
            },
            None => {},
        }
    }
}

/// A shell takes a quoted text for the text itself.
pub proof fn quoting_is_undone(s: Seq<char>)
    ensures
        unquoted(quoted(s), false) == Some(s),
{
    let q = quoted(s);
    let rest = seq!['\''];
    assert(q.drop_first() =~= quotes_escaped(s) + rest);
    unquoting_passes(s, rest);
    assert(rest.drop_first() =~= Seq::<char>::empty());
    assert(unquoted(rest, true) == unquoted(rest.drop_first(), false));
    assert(s + Seq::<char>::empty() =~= s);
}

/// The lines of the script that tests a commit.
pub open spec fn script_lines(
    inq: Seq<char>,
    base: Option<Seq<char>>,
    target: Seq<char>,
) -> Seq<Seq<char>> {
    seq![
        "#!/bin/sh"@,
        "# Generated by `inq bisect`. Runs the target test against the current"@,
        "# commit and translates inq's exit code to git bisect's vocabulary."@,
        "set -u"@,
        quoted(inq) + " "@ + (match base {
            Some(p) => "-C "@ + quoted(p),
            None => Seq::empty(),
        }) + " run "@ + quoted("^"@ + escaped(target) + "$"@) + " >/dev/null 2>&1"@,
        "status=$?"@,
        "if [ \"$status\" = 0 ]; then"@,
        "exit 0"@,
        "elif [ \"$status\" = 1 ]; then"@,
        "exit 1"@,
        "else"@,
        "# inq couldn't run the test at this commit (build failure,"@,
        "# discovery error, etc.) \u{2014} tell git to skip this revision."@,
        "exit 125"@,
        "fi"@,
    ]
}

/// How far a shell has read a line.
pub struct Reading {
    /// The words that are complete.
    pub words: Seq<Seq<char>>,
    /// The word that is being read, where one has begun.
    pub word: Option<Seq<char>>,
    /// Whether a single quote is open.
    pub quoted: bool,
    /// Whether a backslash stands before.
    pub escaped: bool,
}

/// A line of which nothing has been read.
pub open spec fn nothing_read() -> Reading {
    Reading { words: Seq::empty(), word: None, quoted: false, escaped: false }
}

/// Reading one more character: blanks part words, single quotes and backslashes take blanks and
/// quotes into a word.
pub open spec fn read_char(r: Reading, c: char) -> Reading {
    let text = match r.word {
        Some(w) => w,
        None => Seq::empty(),
    };
    if r.quoted {
        if c == '\'' {
            Reading { word: Some(text), quoted: false, ..r }
        } else {
            Reading { word: Some(text.push(c)), ..r }
        }
    } else if r.escaped {
        Reading { word: Some(text.push(c)), escaped: false, ..r }
    } else if c == '\'' {
        Reading { word: Some(text), quoted: true, ..r }
    } else if c == '\\' {
        Reading { word: Some(text), escaped: true, ..r }
    } else if c == ' ' {
        match r.word {
            Some(w) => Reading { words: r.words.push(w), word: None, ..r },
            None => r,
        }
    } else {
        Reading { word: Some(text.push(c)), ..r }
    }
}

/// Reading more of a line.
pub open spec fn read_on(r: Reading, s: Seq<char>) -> Reading
    decreases s.len(),
{
    if s.len() == 0 {
        r
    } else {
        read_char(read_on(r, s.drop_last()), s.last())
    }
}

/// The words that a shell makes of a line.
pub open spec fn shell_words(line: Seq<char>) -> Seq<Seq<char>> {
    let r = read_on(nothing_read(), line);
    match r.word {
        Some(w) => r.words.push(w),
        None => r.words,
    }
}

/// Reading two texts is reading one after the other.
proof fn read_both(r: Reading, a: Seq<char>, b: Seq<char>)
    ensures
        read_on(r, a + b) == read_on(read_on(r, a), b),
    decreases b.len(),
{
    if b.len() == 0 {
        assert(a + b =~= a);
    } else {
        read_both(r, a, b.drop_last());
        assert((a + b).drop_last() =~= a + b.drop_last());
        assert((a + b).last() == b.last());
    }
}

/// Within quotes an escaped text is read as it is.
proof fn read_escaped(r: Reading, s: Seq<char>)
    requires
        r.quoted,
        !r.escaped,
        r.word is Some,
    ensures
        read_on(r, quotes_escaped(s)) == (Reading { word: Some(r.word->0 + s), ..r }),
    decreases s.len(),
{
    if s.len() == 0 {
        assert(r.word->0 + s =~= r.word->0);
    } else {
        let init = s.drop_last();
        let c = s.last();
        read_escaped(r, init);
        let q = read_on(r, quotes_escaped(init));
        assert(r.word->0 + s =~= (r.word->0 + init).push(c));
        if c == '\'' {
            reveal_strlit("'\\''");
            let e = "'\\''"@;
            read_both(r, quotes_escaped(init), e);
            let a = e.drop_last();
            let b = a.drop_last();
            let d = b.drop_last();
            assert(d.drop_last() =~= Seq::<char>::empty());
            assert(e.last() == '\'' && a.last() == '\'' && b.last() == '\\' && d.last() == '\'');
            assert(read_on(q, d.drop_last()) == q);
            let q1 = read_on(q, d);
            assert(q1 == (Reading { quoted: false, ..q }));
            let q2 = read_on(q, b);
            assert(q2 == (Reading { escaped: true, ..q1 }));
            let q3 = read_on(q, a);
            assert(q3 == (Reading { word: Some(q.word->0.push('\'')), ..q1 }));
            assert(read_on(q, e) == (Reading { quoted: true, ..q3 }));
        } else {
            assert(quotes_escaped(s).drop_last() =~= quotes_escaped(init));
        }
    }
}

/// A quoted text is read as one word.
proof fn read_quoted(r: Reading, s: Seq<char>)
    requires
        !r.quoted,
        !r.escaped,
        r.word is None,
    ensures
        read_on(r, quoted(s)) == (Reading { word: Some(s), ..r }),
{
    let a = seq!['\''];
    read_both(r, a + quotes_escaped(s), a);
    read_both(r, a, quotes_escaped(s));
    assert(a.drop_last() =~= Seq::<char>::empty());
    assert(read_on(r, a.drop_last()) == r);
    let q = read_on(r, a);
    assert(q == (Reading { word: Some(Seq::empty()), quoted: true, ..r }));
    read_escaped(q, s);
    assert(Seq::<char>::empty() + s =~= s);
    let t = read_on(q, quotes_escaped(s));
    assert(read_on(t, a.drop_last()) == t);
}

/// A blank ends a word.
proof fn read_blank(r: Reading, s: Seq<char>)
    requires
        !r.quoted,
        !r.escaped,
        s == seq![' '],
    ensures
        read_on(r, s) == (match r.word {
            Some(w) => Reading { words: r.words.push(w), word: None, ..r },
            None => r,
        }),
{
    assert(s.drop_last() =~= Seq::<char>::empty());
    assert(read_on(r, s.drop_last()) == r);
}

/// A text without blanks, quotes and backslashes is read as it is.
proof fn read_plain(r: Reading, s: Seq<char>)
    requires
        !r.quoted,
        !r.escaped,
        r.word is None,
        s.len() > 0,
        forall|i: int|
            0 <= i < s.len() ==> #[trigger] s[i] != ' ' && s[i] != '\'' && s[i] != '\\',
    ensures
        read_on(r, s) == (Reading { word: Some(s), ..r }),
    decreases s.len(),
{
    let init = s.drop_last();
    if init.len() > 0 {
        read_plain(r, init);
        assert(init.push(s.last()) =~= s);
    } else {
        assert(read_on(r, init) == r);
        assert(Seq::<char>::empty().push(s.last()) =~= s);
    }
    assert(s[s.len() - 1] == s.last());
}

/// Which branch of a condition a shell is in.
#[derive(Clone, Copy, PartialEq, Eq, Structural)]
pub enum Branch {
    /// One that is followed, or none.
    Followed,
    /// One that is passed over, as those before it.
    Sought,
    /// One that is passed over, since one before it was followed.
    Done,
}

/// How far a shell has come with a script.
pub struct Shell {
    /// How the last command ended.
    pub last: nat,
    /// The value of the variable `status`.
    pub status: Seq<char>,
    /// The branch that it is in.
    pub branch: Branch,
    /// What the script ended with, where it did.
    pub exit: Option<Seq<char>>,
}

/// Whether a line tests that the variable `status` has a value.
pub open spec fn tests_for(line: Seq<char>, keyword: Seq<char>, value: Seq<char>) -> bool {
    line == keyword + "[ \"$status\" = "@ + value + " ]; then"@
}

/// What a shell makes of a line of a script, where `answer` tells how the command of given words
/// ends.
pub open spec fn shell_line(
    sh: Shell,
    line: Seq<char>,
    answer: spec_fn(Seq<Seq<char>>) -> nat,
) -> Shell {
    if sh.exit is Some || has_prefix(line, "#"@) {
        sh
    } else if has_prefix(line, "if "@) {
        Shell {
            branch: if tests_for(line, "if "@, sh.status) {
                Branch::Followed
            } else {
                Branch::Sought
            },
            ..sh
        }
    } else if has_prefix(line, "elif "@) {
        Shell {
            branch: if sh.branch != Branch::Sought {
                Branch::Done
            } else if tests_for(line, "elif "@, sh.status) {
                Branch::Followed
            } else {
                Branch::Sought
            },
            ..sh
        }
    } else if line == "else"@ {
        Shell {
            branch: if sh.branch == Branch::Sought {
                Branch::Followed
            } else {
                Branch::Done
            },
            ..sh
        }
    } else if line == "fi"@ {
        Shell { branch: Branch::Followed, ..sh }
    } else if sh.branch != Branch::Followed {
        sh
    } else if line == "status=$?"@ {
        Shell { status: decimal(sh.last), ..sh }
    } else if has_prefix(line, "exit "@) {
        Shell { exit: Some(line.skip(5)), ..sh }
    } else {
        Shell { last: answer(shell_words(line)), ..sh }
    }
}

/// How far a shell has come after lines of a script.
pub open spec fn shell_after(
    lines: Seq<Seq<char>>,
    answer: spec_fn(Seq<Seq<char>>) -> nat,
) -> Shell
    decreases lines.len(),
{
    if lines.len() == 0 {
        Shell { last: 0, status: Seq::empty(), branch: Branch::Followed, exit: None }
    } else {
        shell_line(shell_after(lines.drop_last(), answer), lines.last(), answer)
    }
}

/// What a script ends with: what it says, else how its last command ended.
pub open spec fn script_exit(
    lines: Seq<Seq<char>>,
    answer: spec_fn(Seq<Seq<char>>) -> nat,
) -> Seq<char> {
    let sh = shell_after(lines, answer);
    match sh.exit {
        Some(code) => code,
        None => decimal(sh.last),
    }
}

/// A text with another character at a position does not start the same way.
proof fn starts_differently(s: Seq<char>, p: Seq<char>, k: int)
    requires
        0 <= k < p.len(),
        k < s.len(),
        s[k] != p[k],
    ensures
        !has_prefix(s, p),
        s != p,
{
    if has_prefix(s, p) {
        assert(s.take(p.len() as int)[k] == p[k]);
    }
}

/// Texts between the same texts are the same where the whole is.
proof fn between_is_same(a: Seq<char>, v: Seq<char>, w: Seq<char>, b: Seq<char>)
    requires
        a + v + b == a + w + b,
    ensures
        v == w,
{
    let s = a + v + b;
    assert(s.len() == a.len() + v.len() + b.len());
    assert(v =~= s.subrange(a.len() as int, (a.len() + v.len()) as int));
    assert(w =~= s.subrange(a.len() as int, (a.len() + w.len()) as int));
}

/// The words of the call of `inq`: it runs the tests that match the target from start to end, in
/// the directory that is given.
pub open spec fn call_words(
    inq: Seq<char>,
    base: Option<Seq<char>>,
    target: Seq<char>,
) -> Seq<Seq<char>> {
    seq![inq] + (match base {
        Some(p) => seq!["-C"@, p],
        None => Seq::empty(),
    }) + seq!["run"@, "^"@ + escaped(target) + "$"@, ">/dev/null"@, "2>&1"@]
}

/// A shell takes the line that calls `inq` for the words of the call.
proof fn call_is_read(inq: Seq<char>, base: Option<Seq<char>>, target: Seq<char>)
    ensures
        shell_words(script_lines(inq, base, target)[4]) == call_words(inq, base, target),
{
    let r = nothing_read();
    let pattern = "^"@ + escaped(target) + "$"@;
    let blank = seq![' '];
    reveal_strlit(" ");
    reveal_strlit("-C ");
    reveal_strlit("-C");
    reveal_strlit(" run ");
    reveal_strlit("run");
    reveal_strlit(" >/dev/null 2>&1");
    reveal_strlit(">/dev/null");
    reveal_strlit("2>&1");
    let line = script_lines(inq, base, target)[4];
    let dir = match base {
        Some(p) => "-C"@ + blank + quoted(p),
        None => Seq::empty(),
    };
    let a1 = quoted(inq);
    let a2 = a1 + blank;
    let a3 = a2 + dir;
    let a4 = a3 + blank;
    let a5 = a4 + "run"@;
    let a6 = a5 + blank;
    let a7 = a6 + quoted(pattern);
    let a8 = a7 + blank;
    let a9 = a8 + ">/dev/null"@;
    let a10 = a9 + blank;
    let a11 = a10 + "2>&1"@;
    assert(" run "@ =~= blank + "run"@ + blank);
    assert(" >/dev/null 2>&1"@ =~= blank + ">/dev/null"@ + blank + "2>&1"@);
    assert("-C "@ =~= "-C"@ + blank);
    assert(" "@ =~= blank);
    assert(line =~= a11);
    read_quoted(r, inq);
    let r1 = read_on(r, a1);
    read_both(r, a1, blank);
    read_blank(r1, blank);
    let r2 = read_on(r, a2);
    assert(r2.words =~= seq![inq]);
    read_both(r, a2, dir);
    let r3 = read_on(r, a3);
    let head = seq![inq] + (match base {
        Some(p) => seq!["-C"@, p],
        None => Seq::empty(),
    });
    read_both(r, a3, blank);
    match base {
        Some(p) => {
            read_both(r2, "-C"@ + blank, quoted(p));
            read_both(r2, "-C"@, blank);
            read_plain(r2, "-C"@);
            let x = read_on(r2, "-C"@);
            read_blank(x, blank);
            let y = read_on(x, blank);
            read_quoted(y, p);
            assert(r3 == (Reading { words: r2.words.push("-C"@), word: Some(p), ..r2 }));
            read_blank(r3, blank);
            assert(r2.words.push("-C"@).push(p) =~= head);
        },
        None => {
            assert(r3 == r2);
            read_blank(r3, blank);
            assert(r2.words =~= head);
        },
    }
    let r4 = read_on(r, a4);
    assert(r4 == (Reading { words: head, word: None, ..r }));
    read_both(r, a4, "run"@);
    read_plain(r4, "run"@);
    read_both(r, a5, blank);
    read_blank(read_on(r, a5), blank);
    let r6 = read_on(r, a6);
    read_both(r, a6, quoted(pattern));
    read_quoted(r6, pattern);
    read_both(r, a7, blank);
    read_blank(read_on(r, a7), blank);
    let r8 = read_on(r, a8);
    read_both(r, a8, ">/dev/null"@);
    read_plain(r8, ">/dev/null"@);
    read_both(r, a9, blank);
    read_blank(read_on(r, a9), blank);
    let r10 = read_on(r, a10);
    read_both(r, a10, "2>&1"@);
    read_plain(r10, "2>&1"@);
    assert(shell_words(line) =~= call_words(inq, base, target));
}

/// The script that tests a commit ends with zero where `inq` says that the test passes there, with
/// one where it says that the test fails, and with 125 otherwise: git takes the commit for good,
/// bad, or one that cannot be tested. `inq` is asked by a call that a shell reads as meant, whatever
/// characters the path and the name of the test hold.
pub proof fn script_tells_git_what_inq_found(
    inq: Seq<char>,
    base: Option<Seq<char>>,
    target: Seq<char>,
    answer: spec_fn(Seq<Seq<char>>) -> nat,
)
    ensures
        ({
            let found = answer(
                seq![inq] + (match base {
                    Some(p) => seq!["-C"@, p],
                    None => Seq::empty(),
                }) + seq!["run"@, "^"@ + escaped(target) + "$"@, ">/dev/null"@, "2>&1"@],
            );
            script_exit(script_lines(inq, base, target), answer) == decimal(
                if found == 0 {
                    0
                } else if found == 1 {
                    1
                } else {
                    125
                },
            )
        }),
{
    let lines = script_lines(inq, base, target);
    call_is_read(inq, base, target);
    let found = answer(call_words(inq, base, target));
    before_the_call(lines, inq, base, target, answer);
    let s4 = shell_after(lines.take(4), answer);
    next_line(lines, 4, answer);
    assert(lines[4][0] == '\'');
    command_is_called(s4, lines[4], answer);
    let s5 = shell_after(lines.take(5), answer);
    next_line(lines, 5, answer);
    status_is_kept(s5, answer);
    let s6 = shell_after(lines.take(6), answer);
    next_line(lines, 6, answer);
    zero_is_tested(s6, found, answer);
    let s7 = shell_after(lines.take(7), answer);
    next_line(lines, 7, answer);
    exits_with(s7, answer);
    let s8 = shell_after(lines.take(8), answer);
    next_line(lines, 8, answer);
    one_is_tested(s8, found, answer);
    let s9 = shell_after(lines.take(9), answer);
    next_line(lines, 9, answer);
    exits_with(s9, answer);
    let s10 = shell_after(lines.take(10), answer);
    next_line(lines, 10, answer);
    otherwise_is_followed(s10, answer);
    let s11 = shell_after(lines.take(11), answer);
    next_line(lines, 11, answer);
    let s12 = shell_after(lines.take(12), answer);
    next_line(lines, 12, answer);
    comments_are_passed(s11, s12, lines, answer);
    let s13 = shell_after(lines.take(13), answer);
    next_line(lines, 13, answer);
    exits_with(s13, answer);
    next_line(lines, 14, answer);
    assert(lines.take(15) =~= lines);
}

/// What comes before the call of `inq` ends nothing.
proof fn before_the_call(
    lines: Seq<Seq<char>>,
    inq: Seq<char>,
    base: Option<Seq<char>>,
    target: Seq<char>,
    answer: spec_fn(Seq<Seq<char>>) -> nat,
)
    requires
        lines == script_lines(inq, base, target),
    ensures
        shell_after(lines.take(4), answer).exit is None,
        shell_after(lines.take(4), answer).branch == Branch::Followed,
{
    reveal_strlit("#!/bin/sh");
    reveal_strlit("# Generated by `inq bisect`. Runs the target test against the current");
    reveal_strlit("# commit and translates inq's exit code to git bisect's vocabulary.");
    reveal_strlit("set -u");
    assert(lines.take(0) =~= Seq::<Seq<char>>::empty());
    next_line(lines, 0, answer);
    next_line(lines, 1, answer);
    next_line(lines, 2, answer);
    next_line(lines, 3, answer);
    let sh = shell_after(lines.take(0), answer);
    comment_is_passed(sh, lines[0], answer);
    comment_is_passed(sh, lines[1], answer);
    comment_is_passed(sh, lines[2], answer);
    command_is_called(sh, lines[3], answer);
}

/// The comment in the last branch changes nothing.
proof fn comments_are_passed(
    a: Shell,
    b: Shell,
    lines: Seq<Seq<char>>,
    answer: spec_fn(Seq<Seq<char>>) -> nat,
)
    requires
        lines.len() > 12,
        lines[11] == "# inq couldn't run the test at this commit (build failure,"@,
        lines[12] == "# discovery error, etc.) \u{2014} tell git to skip this revision."@,
    ensures
        shell_line(a, lines[11], answer) == a,
        shell_line(b, lines[12], answer) == b,
{
    reveal_strlit("# inq couldn't run the test at this commit (build failure,");
    reveal_strlit("# discovery error, etc.) \u{2014} tell git to skip this revision.");
    comment_is_passed(a, lines[11], answer);
    comment_is_passed(b, lines[12], answer);
}

/// The status of the last command is kept.
proof fn status_is_kept(sh: Shell, answer: spec_fn(Seq<Seq<char>>) -> nat)
    requires
        sh.exit is None,
        sh.branch == Branch::Followed,
    ensures
        shell_line(sh, "status=$?"@, answer) == (Shell { status: decimal(sh.last), ..sh }),
{
    reveal_strlit("#");
    reveal_strlit("if ");
    reveal_strlit("elif ");
    reveal_strlit("else");
    reveal_strlit("fi");
    reveal_strlit("status=$?");
    let line = "status=$?"@;
    starts_differently(line, "#"@, 0);
    starts_differently(line, "if "@, 0);
    starts_differently(line, "elif "@, 0);
    starts_differently(line, "else"@, 0);
    starts_differently(line, "fi"@, 0);
}

/// The first branch is followed where the status is zero.
proof fn zero_is_tested(sh: Shell, found: nat, answer: spec_fn(Seq<Seq<char>>) -> nat)
    requires
        sh.exit is None,
        sh.status == decimal(found),
    ensures
        shell_line(sh, "if [ \"$status\" = 0 ]; then"@, answer) == (Shell {
            branch: if found == 0 {
                Branch::Followed
            } else {
                Branch::Sought
            },
            ..sh
        }),
{
    reveal_strlit("#");
    reveal_strlit("if ");
    reveal_strlit("if [ \"$status\" = 0 ]; then");
    reveal_strlit("[ \"$status\" = ");
    reveal_strlit(" ]; then");
    reveal_strlit("0");
    let line = "if [ \"$status\" = 0 ]; then"@;
    starts_differently(line, "#"@, 0);
    assert(line.take(3) =~= "if "@);
    assert(line =~= "if "@ + "[ \"$status\" = "@ + "0"@ + " ]; then"@);
    digit_is_tested(line, "if "@, "0"@, 0, found);
}

/// The second branch is followed where the first one is not and the status is one.
proof fn one_is_tested(sh: Shell, found: nat, answer: spec_fn(Seq<Seq<char>>) -> nat)
    requires
        sh.exit is None ==> sh.status == decimal(found) && sh.branch == Branch::Sought,
    ensures
        shell_line(sh, "elif [ \"$status\" = 1 ]; then"@, answer) == (if sh.exit is Some {
            sh
        } else {
            Shell {
                branch: if found == 1 {
                    Branch::Followed
                } else {
                    Branch::Sought
                },
                ..sh
            }
        }),
{
    reveal_strlit("#");
    reveal_strlit("if ");
    reveal_strlit("elif ");
    reveal_strlit("elif [ \"$status\" = 1 ]; then");
    reveal_strlit("[ \"$status\" = ");
    reveal_strlit(" ]; then");
    reveal_strlit("1");
    let line = "elif [ \"$status\" = 1 ]; then"@;
    starts_differently(line, "#"@, 0);
    starts_differently(line, "if "@, 0);
    assert(line.take(5) =~= "elif "@);
    assert(line =~= "elif "@ + "[ \"$status\" = "@ + "1"@ + " ]; then"@);
    digit_is_tested(line, "elif "@, "1"@, 1, found);
}

/// The last branch is followed where no other is.
proof fn otherwise_is_followed(sh: Shell, answer: spec_fn(Seq<Seq<char>>) -> nat)
    requires
        sh.exit is None ==> sh.branch == Branch::Sought,
    ensures
        shell_line(sh, "else"@, answer) == (if sh.exit is Some {
            sh
        } else {
            Shell { branch: Branch::Followed, ..sh }
        }),
{
    reveal_strlit("#");
    reveal_strlit("if ");
    reveal_strlit("elif ");
    reveal_strlit("else");
    let line = "else"@;
    starts_differently(line, "#"@, 0);
    starts_differently(line, "if "@, 0);
    if has_prefix(line, "elif "@) {
        assert("elif "@.len() == 5 && line.len() == 4);
    }
}

/// The codes that the script ends with.
proof fn exits_with(sh: Shell, answer: spec_fn(Seq<Seq<char>>) -> nat)
    ensures
        sh.exit is None && sh.branch == Branch::Followed ==> shell_line(sh, "exit 0"@, answer) == (
        Shell { exit: Some(decimal(0)), ..sh }) && shell_line(sh, "exit 1"@, answer) == (Shell {
            exit: Some(decimal(1)),
            ..sh
        }) && shell_line(sh, "exit 125"@, answer) == (Shell { exit: Some(decimal(125)), ..sh }),
        !(sh.exit is None && sh.branch == Branch::Followed) ==> shell_line(sh, "exit 0"@, answer)
            == sh && shell_line(sh, "exit 1"@, answer) == sh && shell_line(
            sh,
            "exit 125"@,
            answer,
        ) == sh,
{
    reveal_strlit("exit ");
    reveal_strlit("exit 0");
    reveal_strlit("exit 1");
    reveal_strlit("exit 125");
    reveal_strlit("0");
    reveal_strlit("1");
    reveal_strlit("125");
    assert("exit 0"@ =~= "exit "@ + "0"@);
    assert("exit 1"@ =~= "exit "@ + "1"@);
    assert("exit 125"@ =~= "exit "@ + "125"@);
    exit_is_taken(sh, "exit 0"@, "0"@, answer);
    exit_is_taken(sh, "exit 1"@, "1"@, answer);
    exit_is_taken(sh, "exit 125"@, "125"@, answer);
    one_digit(0);
    one_digit(1);
    reveal_with_fuel(decimal, 4);
    assert(decimal(125) =~= "125"@);
}

/// The script of a command that tests a commit, its lines with line feeds behind them.
pub open spec fn bisect_script(c: BisectCommand, inq: Seq<char>) -> Seq<char> {
    terminated(script_lines(inq, optional_text(c.base_path), c.target_test@), "\n"@)
}

/// The script of a command asks `inq` for the test of the command, in the directory of the command,
/// and tells git what was found: zero where the test passes, one where it fails, and 125 where it
/// could not be run.
pub proof fn script_asks_for_the_test_of_the_command(
    c: BisectCommand,
    inq: Seq<char>,
    answer: spec_fn(Seq<Seq<char>>) -> nat,
)
    ensures
        exists|lines: Seq<Seq<char>>|
            {
                let found = answer(
                    seq![inq] + (match c.base_path {
                        Some(p) => seq!["-C"@, p@],
                        None => Seq::empty(),
                    }) + seq![
                        "run"@,
                        "^"@ + escaped(c.target_test@) + "$"@,
                        ">/dev/null"@,
                        "2>&1"@,
                    ],
                );
                &&& bisect_script(c, inq) == #[trigger] terminated(lines, "\n"@)
                &&& script_exit(lines, answer) == decimal(
                    if found == 0 {
                        0
                    } else if found == 1 {
                        1
                    } else {
                        125
                    },
                )
            },
{
    let base = optional_text(c.base_path);
    script_tells_git_what_inq_found(inq, base, c.target_test@, answer);
    let lines = script_lines(inq, base, c.target_test@);
    assert(bisect_script(c, inq) == terminated(lines, "\n"@));
}

/// A shell takes one line after the other.
proof fn next_line(lines: Seq<Seq<char>>, n: int, answer: spec_fn(Seq<Seq<char>>) -> nat)
    requires
        0 <= n < lines.len(),
    ensures
        shell_after(lines.take(n + 1), answer) == shell_line(
            shell_after(lines.take(n), answer),
            lines[n],
            answer,
        ),
{
    assert(lines.take(n + 1).drop_last() =~= lines.take(n));
}

/// A comment changes nothing.
proof fn comment_is_passed(sh: Shell, line: Seq<char>, answer: spec_fn(Seq<Seq<char>>) -> nat)
    requires
        line.len() > 0,
        line[0] == '#',
    ensures
        shell_line(sh, line, answer) == sh,
{
    reveal_strlit("#");
    assert(line.take(1) =~= "#"@);
}

/// A line that starts like no word of the shell is a command.
proof fn command_is_called(sh: Shell, line: Seq<char>, answer: spec_fn(Seq<Seq<char>>) -> nat)
    requires
        sh.exit is None,
        sh.branch == Branch::Followed,
        line.len() > 1,
        line[0] == '\'' || line[0] == 's' && line[1] != 't',
    ensures
        shell_line(sh, line, answer) == (Shell { last: answer(shell_words(line)), ..sh }),
{
    reveal_strlit("#");
    reveal_strlit("if ");
    reveal_strlit("elif ");
    reveal_strlit("else");
    reveal_strlit("fi");
    reveal_strlit("status=$?");
    reveal_strlit("exit ");
    starts_differently(line, "#"@, 0);
    starts_differently(line, "if "@, 0);
    starts_differently(line, "elif "@, 0);
    starts_differently(line, "else"@, 0);
    starts_differently(line, "fi"@, 0);
    starts_differently(line, "exit "@, 0);
    if line[0] == 's' {
        starts_differently(line, "status=$?"@, 1);
    } else {
        starts_differently(line, "status=$?"@, 0);
    }
}

/// A shell ends where it is told to in a branch that it follows.
proof fn exit_is_taken(
    sh: Shell,
    line: Seq<char>,
    code: Seq<char>,
    answer: spec_fn(Seq<Seq<char>>) -> nat,
)
    requires
        line == "exit "@ + code,
    ensures
        shell_line(sh, line, answer) == (if sh.exit is None && sh.branch == Branch::Followed {
            Shell { exit: Some(code), ..sh }
        } else {
            sh
        }),
{
    reveal_strlit("#");
    reveal_strlit("if ");
    reveal_strlit("elif ");
    reveal_strlit("else");
    reveal_strlit("fi");
    reveal_strlit("status=$?");
    reveal_strlit("exit ");
    starts_differently(line, "#"@, 0);
    starts_differently(line, "if "@, 0);
    starts_differently(line, "elif "@, 1);
    starts_differently(line, "else"@, 1);
    starts_differently(line, "fi"@, 0);
    starts_differently(line, "status=$?"@, 0);
    assert(line.take(5) =~= "exit "@);
    assert(line.skip(5) =~= code);
}

/// A digit in decimal.
proof fn one_digit(n: nat)
    requires
        n == 0 || n == 1,
    ensures
        n == 0 ==> decimal(n) == "0"@,
        n == 1 ==> decimal(n) == "1"@,
{
    reveal_strlit("0");
    reveal_strlit("1");
    if n == 0 {
        assert(decimal(0) =~= "0"@);
    } else {
        assert(decimal(1) =~= "1"@);
    }
}

/// A line that tests for a digit tests for the number.
proof fn digit_is_tested(line: Seq<char>, keyword: Seq<char>, value: Seq<char>, n: nat, found: nat)
    requires
        line == keyword + "[ \"$status\" = "@ + value + " ]; then"@,
        n == 0 && value == "0"@ || n == 1 && value == "1"@,
    ensures
        tests_for(line, keyword, decimal(found)) <==> found == n,
{
    one_digit(n);
    if tests_for(line, keyword, decimal(found)) {
        between_is_same(
            keyword + "[ \"$status\" = "@,
            value,
            decimal(found),
            " ]; then"@,
        );
        crate::text::number::decimal_round_trip(found);
        crate::text::number::decimal_round_trip(n);
    }
}

/// The commits to start from, and what is said of them.
#[derive(Debug)]
pub struct BisectChoice {
    /// A commit at which the test fails.
    pub bad: String,
    /// A commit at which it passes.
    pub good: String,
}

/// The commit to start from: the one asked for, else that of a run, else another one.
pub open spec fn chosen(
    asked: Option<Seq<char>>,
    found: Option<(Seq<char>, Seq<char>)>,
    otherwise: Option<Seq<char>>,
) -> Option<Seq<char>> {
    match asked {
        Some(c) => Some(c),
        None => match found {
            Some((run, commit)) => Some(commit),
            None => otherwise,
        },
    }
}

/// The commits that a command starts from: one at which the test fails and one at which it passes.
pub open spec fn start_commits(c: BisectCommand, runs: Seq<StoredRun>) -> Option<
    (Seq<char>, Seq<char>),
> {
    let t = c.target_test@;
    match chosen(optional_text(c.good_commit), latest(runs, t, false), None) {
        Some(good) => Some(
            (
                chosen(optional_text(c.bad_commit), latest(runs, t, true), Some("HEAD"@))->0,
                good,
            ),
        ),
        None => None,
    }
}

/// What is said of the run whose commit is taken.
pub open spec fn choice_lines(
    asked: Option<Seq<char>>,
    found: Option<(Seq<char>, Seq<char>)>,
    how: Seq<char>,
) -> Seq<Seq<char>> {
    match found {
        Some((run, commit)) if asked is None => seq![
            "Using run "@ + run + " ("@ + short_text(commit) + ") as the "@ + how,
        ],
        _ => Seq::empty(),
    }
}

/// What a command said and how it ended.
#[derive(Debug)]
pub struct ProcessOutput {
    /// The exit code, where there is one.
    pub code: Option<i32>,
    /// What it said.
    pub stdout: String,
    /// What it said of errors.
    pub stderr: String,
}

/// A text without blanks at its end, unless it is blank.
pub open spec fn spoken(s: Seq<char>) -> Seq<Line> {
    if trimmed(s).len() > 0 {
        seq![Line::Output(trimmed_end(s))]
    } else {
        Seq::empty()
    }
}

/// Passes a text on, unless it is blank.
fn speak(ui: &mut Transcript, s: &str)
    ensures
        final(ui)@ == old(ui)@ + spoken(s@),
{
    if !trim(s).as_str().is_empty() {
        ui.output(trim_end(s).as_str());
    }
    assert(ui@ =~= old(ui)@ + spoken(s@));
}

/// The commit that `git rev-parse` found.
pub fn read_commit(revspec: &str, output: &ProcessOutput) -> (r: Result<String>)
    ensures
        output.code == Some(0i32) ==> (r matches Ok(s) && s@ == trimmed(output.stdout@)),
        output.code != Some(0i32) ==> (r matches Err(e) && e@ == Failure::CommandExecution(
            "git rev-parse "@ + revspec@ + " failed: "@ + trimmed(output.stderr@),
        )),
{
    match output.code {
        Some(0) => Ok(trim(output.stdout.as_str())),
        _ => Err(
            Error::CommandExecution(
                cat4(
                    "git rev-parse ",
                    revspec,
                    " failed: ",
                    trim(output.stderr.as_str()).as_str(),
                ),
            ),
        ),
    }
}

/// Whether `git bisect start` succeeded.
pub fn check_start(output: &ProcessOutput) -> (r: Result<()>)
    ensures
        output.code == Some(0i32) ==> r is Ok,
        output.code != Some(0i32) ==> (r matches Err(e) && e@ == Failure::CommandExecution(
            "git bisect start failed: "@ + trimmed(output.stderr@),
        )),
{
    match output.code {
        Some(0) => Ok(()),
        _ => Err(
            Error::CommandExecution(
                cat2("git bisect start failed: ", trim(output.stderr.as_str()).as_str()),
            ),
        ),
    }
}

/// What is said after `git bisect run` and `git bisect reset`.
pub open spec fn conclusion(run: Result<ProcessOutput>, reset: Option<Failure>) -> Seq<Line> {
    (match run {
        Ok(out) => spoken(out.stdout@) + spoken(out.stderr@),
        Err(e) => seq![Line::Error("git bisect run failed: "@ + failure_text(e@))],
    }) + (match reset {
        Some(f) => seq![Line::Error("git bisect reset failed: "@ + failure_text(f))],
        None => Seq::empty(),
    })
}

/// Tells what came of `git bisect run`, and of `git bisect reset` where it could not be run.
pub fn conclude(run: Result<ProcessOutput>, reset: Option<Error>, ui: &mut Transcript) -> (r: Result<
    i32,
>)
    ensures
        final(ui)@ == old(ui)@ + conclusion(
            run,
            match reset {
                Some(e) => Some(e@),
                None => None,
            },
        ),
        match run {
            Ok(out) => r matches Ok(code) && code == (match out.code {
                Some(c) => c,
                None => 1i32,
            }),
            Err(e) => r == Err::<i32, Error>(e),
        },
{
    match &run {
        Ok(out) => {
            speak(ui, out.stdout.as_str());
            speak(ui, out.stderr.as_str());
        },
        Err(e) => {
            ui.error(cat2("git bisect run failed: ", e.message().as_str()).as_str());
        },
    }
    if let Some(e) = &reset {
        ui.error(cat2("git bisect reset failed: ", e.message().as_str()).as_str());
    }
    assert(ui@ =~= old(ui)@ + conclusion(
        run,
        match reset {
            Some(e) => Some(e@),
            None => None,
        },
    ));
    match run {
        Ok(out) => match out.code {
            Some(c) => Ok(c),
            None => Ok(1),
        },
        Err(e) => Err(e),
    }
}

impl BisectCommand {
    /// A command for a test.
    pub fn new(base_path: Option<String>, target_test: String) -> (r: Self)
        ensures
            r == (BisectCommand { base_path, target_test, good_commit: None, bad_commit: None }),
    {
        BisectCommand { base_path, target_test, good_commit: None, bad_commit: None }
    }

    /// The command with a commit at which the test passes.
    pub fn with_good_commit(self, commit: Option<String>) -> (r: Self)
        ensures
            r == (BisectCommand { good_commit: commit, ..self }),
    {
        BisectCommand {
            base_path: self.base_path,
            target_test: self.target_test,
            good_commit: commit,
            bad_commit: self.bad_commit,
        }
    }

    /// The command with a commit at which the test fails.
    pub fn with_bad_commit(self, commit: Option<String>) -> (r: Self)
        ensures
            r == (BisectCommand { bad_commit: commit, ..self }),
    {
        BisectCommand {
            base_path: self.base_path,
            target_test: self.target_test,
            good_commit: self.good_commit,
            bad_commit: commit,
        }
    }

    /// The latest run that tells that the test fails, or that it passes.
    fn find_latest(&self, store: &Store, fails: bool) -> (r: Option<Anchor>)
        ensures
            anchor_view(r) == latest(store.runs@, self.target_test@, fails),
    {
        let n: usize = store.runs.len();
        let mut i: usize = n;
        assert(store.runs@.take(n as int) =~= store.runs@);
        while i > 0
            invariant
                i <= n == store.runs@.len(),
                latest(store.runs@.take(i as int), self.target_test@, fails) == latest(
                    store.runs@,
                    self.target_test@,
                    fails,
                ),
            decreases i,
        {
            let stored: &StoredRun = &store.runs[i - 1];
            assert(store.runs@.take(i as int).drop_last() =~= store.runs@.take(i - 1));
            i -= 1;
            let dirty: bool = match stored.metadata.git_dirty {
                Some(d) => d,
                None => false,
            };
            if let Some(commit) = &stored.metadata.git_commit {
                if !dirty {
                    if let Some(result) = stored.run.results.find(self.target_test.as_str()) {
                        if result.status.is_failure() == fails {
                            return Some(
                                Anchor { run: stored.run.id.copy(), commit: commit.clone() },
                            );
                        }
                    }
                }
            }
        }
        None
    }

    /// The latest runs in which the test passed and failed.
    pub fn scan_history(&self, store: &Store) -> (r: HistoryScan)
        ensures
            anchor_view(r.last_good) == latest(store.runs@, self.target_test@, false),
            anchor_view(r.last_bad) == latest(store.runs@, self.target_test@, true),
    {
        HistoryScan {
            last_good: self.find_latest(store, false),
            last_bad: self.find_latest(store, true),
        }
    }

    /// Chooses the commits to start from: those asked for, else those of the latest runs. Where no
    /// run failed, the commit that is checked out counts as failing.
    pub fn choose_commits(&self, store: &Store, ui: &mut Transcript) -> (r: Result<BisectChoice>)
        ensures
            ({
                let good = latest(store.runs@, self.target_test@, false);
                let bad = latest(store.runs@, self.target_test@, true);
                let g = optional_text(self.good_commit);
                let b = optional_text(self.bad_commit);
                &&& final(ui)@ == old(ui)@ + outputs(
                    seq!["Bisecting test: "@ + self.target_test@] + choice_lines(
                        b,
                        bad,
                        "bad commit (target test failed)"@,
                    ) + choice_lines(g, good, "good commit (target test passed)"@),
                )
                &&& match start_commits(*self, store.runs@) {
                    Some((bad_start, good_start)) => r matches Ok(x) && x.good@ == good_start
                        && x.bad@ == bad_start,
                    None => r matches Err(e) && e@ == Failure::Other(
                        "No recorded run found where '"@ + self.target_test@
                            + "' passed. Pass a known-good commit explicitly, or record a passing run on an older commit first."@,
                    ),
                }
            }),
    {
        let first: String = cat2("Bisecting test: ", self.target_test.as_str());
        ui.output(first.as_str());
        let scan: HistoryScan = self.scan_history(store);
        let ghost mut bad_lines: Seq<Seq<char>> = Seq::empty();
        let ghost mut good_lines: Seq<Seq<char>> = Seq::empty();
        let bad: String = match &self.bad_commit {
            Some(c) => c.clone(),
            None => match &scan.last_bad {
                Some(a) => {
                    let line: String = choice_line(a, "bad commit (target test failed)");
                    ui.output(line.as_str());
                    proof {
                        bad_lines = seq![line@];
                    }
                    a.commit.clone()
                },
                None => "HEAD".to_owned(),
            },
        };
        let good: String = match &self.good_commit {
            Some(c) => c.clone(),
            None => match &scan.last_good {
                Some(a) => {
                    let line: String = choice_line(a, "good commit (target test passed)");
                    ui.output(line.as_str());
                    proof {
                        good_lines = seq![line@];
                    }
                    a.commit.clone()
                },
                None => {
                    assert(ui@ =~= old(ui)@ + outputs(seq![first@] + bad_lines + good_lines));
                    return Err(
                        Error::Other(
                            cat3(
                                "No recorded run found where '",
                                self.target_test.as_str(),
                                "' passed. Pass a known-good commit explicitly, or record a passing run on an older commit first.",
                            ),
                        ),
                    );
                },
            },
        };
        assert(ui@ =~= old(ui)@ + outputs(seq![first@] + bad_lines + good_lines));
        Ok(BisectChoice { bad, good })
    }

    /// Fails where there is nothing between the commits.
    pub fn check_commits(&self, bad: &str, good: &str) -> (r: Result<()>)
        ensures
            bad@ != good@ ==> r is Ok,
            bad@ == good@ ==> (r matches Err(e) && e@ == Failure::Other(
                "Good and bad commits are identical ("@ + short_text(bad@)
                    + "); nothing to bisect"@,
            )),
    {
        if text_eq(bad, good) {
            Err(
                Error::Other(
                    cat3(
                        "Good and bad commits are identical (",
                        short_commit(bad).as_str(),
                        "); nothing to bisect",
                    ),
                ),
            )
        } else {
            Ok(())
        }
    }

    /// Says that the search starts, and gives what `git bisect` is called with.
    pub fn start(&self, bad: &str, good: &str, ui: &mut Transcript) -> (r: Vec<String>)
        ensures
            final(ui)@ == old(ui)@ + outputs(
                seq![
                    "Starting git bisect: bad="@ + short_text(bad@) + ", good="@ + short_text(
                        good@,
                    ),
                ],
            ),
            texts(r@) == seq!["start"@, bad@, good@],
    {
        let line: String = cat4(
            "Starting git bisect: bad=",
            short_commit(bad).as_str(),
            ", good=",
            short_commit(good).as_str(),
        );
        ui.output(line.as_str());
        assert(ui@ =~= old(ui)@ + outputs(seq![line@]));
        let mut r: Vec<String> = Vec::new();
        r.push("start".to_owned());
        r.push(bad.to_owned());
        r.push(good.to_owned());
        assert(texts(r@) =~= seq!["start"@, bad@, good@]);
        r
    }

    /// The script that tests a commit: it ends with zero where the test passes, with one where it
    /// fails, and with 125 where it cannot be run.
    pub fn build_bisect_script(&self, inq: &str) -> (s: String)
        ensures
            s@ == bisect_script(*self, inq@),
    {
        let dir: String = match &self.base_path {
            Some(p) => cat2("-C ", sh_quote(p.as_str()).as_str()),
            None => String::new(),
        };
        let pattern: String = cat3("^", escape(self.target_test.as_str()).as_str(), "$");
        let mut call: String = cat5(
            sh_quote(inq).as_str(),
            " ",
            dir.as_str(),
            " run ",
            sh_quote(pattern.as_str()).as_str(),
        );
        call.append(" >/dev/null 2>&1");
        let mut v: Vec<String> = Vec::new();
        v.push("#!/bin/sh".to_owned());
        v.push("# Generated by `inq bisect`. Runs the target test against the current".to_owned());
        v.push("# commit and translates inq's exit code to git bisect's vocabulary.".to_owned());
        v.push("set -u".to_owned());
        v.push(call);
        v.push("status=$?".to_owned());
        v.push("if [ \"$status\" = 0 ]; then".to_owned());
        v.push("exit 0".to_owned());
        v.push("elif [ \"$status\" = 1 ]; then".to_owned());
        v.push("exit 1".to_owned());
        v.push("else".to_owned());
        v.push("# inq couldn't run the test at this commit (build failure,".to_owned());
        v.push("# discovery error, etc.) \u{2014} tell git to skip this revision.".to_owned());
        v.push("exit 125".to_owned());
        v.push("fi".to_owned());
        assert(texts(v@) =~= script_lines(inq@, optional_text(self.base_path), self.target_test@));
        join_terminated(&v, "\n")
    }
}

/// What is said of the run whose commit is taken.
fn choice_line(a: &Anchor, how: &str) -> (s: String)
    ensures
        s@ == "Using run "@ + a.run@ + " ("@ + short_text(a.commit@) + ") as the "@ + how@,
{
    let mut s: String = cat5(
        "Using run ",
        a.run.as_str(),
        " (",
        short_commit(a.commit.as_str()).as_str(),
        ") as the ",
    );
    s.append(how);
    s
}

/// The runs that are chosen tell what they are chosen for: the commit is that of a recorded run
/// with a result of the test that fails, or passes, and no later run tells the same.
pub proof fn latest_tells(runs: Seq<StoredRun>, t: Seq<char>, fails: bool)
    ensures
        match latest(runs, t, fails) {
            Some((run, commit)) => exists|i: int|
                0 <= i < runs.len() && tells(#[trigger] runs[i], t, fails) && runs[i].run.id@ == run
                    && runs[i].metadata.git_commit->0@ == commit && forall|k: int|
                    i < k < runs.len() ==> !tells(#[trigger] runs[k], t, fails),
            None => forall|k: int| 0 <= k < runs.len() ==> !tells(#[trigger] runs[k], t, fails),
        },
    decreases runs.len(),
{
    if runs.len() > 0 {
        if tells(runs.last(), t, fails) {
            assert(tells(runs[runs.len() - 1], t, fails));
        } else {
            let init = runs.drop_last();
            latest_tells(init, t, fails);
            match latest(init, t, fails) {
                Some((run, commit)) => {
                    let i = choose|i: int|
                        0 <= i < init.len() && tells(#[trigger] init[i], t, fails)
                            && init[i].run.id@ == run && init[i].metadata.git_commit->0@ == commit
                            && forall|k: int|
                            i < k < init.len() ==> !tells(#[trigger] init[k], t, fails);
                    assert(tells(runs[i], t, fails));
                    assert forall|k: int| i < k < runs.len() implies !tells(
                        #[trigger] runs[k],
                        t,
                        fails,
                    ) by {
                        if k < init.len() {
                            assert(!tells(init[k], t, fails));
                        }
                    }
                },
                None => {
                    assert forall|k: int| 0 <= k < runs.len() implies !tells(
                        #[trigger] runs[k],
                        t,
                        fails,
                    ) by {
                        if k < init.len() {
                            assert(!tells(init[k], t, fails));
                        }
                    }
                },
            }
        }
    }
}

/// The commit to start from is the one that is asked for. Where none is, it is the commit of a
/// recorded run without uncommitted changes in which the test failed, or passed, as it is sought,
/// with no later such run. Where there is no such run, it is the one that stands in for it.
pub proof fn commits_are_those_of_the_latest_runs(
    asked: Option<Seq<char>>,
    runs: Seq<StoredRun>,
    t: Seq<char>,
    fails: bool,
    otherwise: Option<Seq<char>>,
)
    ensures
        asked is Some ==> chosen(asked, latest(runs, t, fails), otherwise) == asked,
        asked is None ==> ((exists|i: int|
            {
                &&& 0 <= i < runs.len()
                &&& #[trigger] told_commit(runs[i]) is Some
                &&& chosen(asked, latest(runs, t, fails), otherwise) == told_commit(runs[i])
                &&& has_key(runs[i].run.results@, t)
                &&& is_failure(entry_of(runs[i].run.results@, t).status) == fails
                &&& forall|k: int|
                    i < k < runs.len() ==> (#[trigger] told_commit(runs[k])) is None || !has_key(
                        runs[k].run.results@,
                        t,
                    ) || is_failure(entry_of(runs[k].run.results@, t).status) != fails
            }) || (chosen(asked, latest(runs, t, fails), otherwise) == otherwise && forall|k: int|
            0 <= k < runs.len() ==> (#[trigger] told_commit(runs[k])) is None || !has_key(
                runs[k].run.results@,
                t,
            ) || is_failure(entry_of(runs[k].run.results@, t).status) != fails)),
{
    latest_tells(runs, t, fails);
    assert forall|k: int| 0 <= k < runs.len() && !tells(runs[k], t, fails) implies (
    #[trigger] told_commit(runs[k])) is None || !has_key(runs[k].run.results@, t) || is_failure(
        entry_of(runs[k].run.results@, t).status,
    ) != fails by {}
    if asked is None {
        if let Some((run, commit)) = latest(runs, t, fails) {
            let i = choose|i: int|
                0 <= i < runs.len() && tells(#[trigger] runs[i], t, fails) && runs[i].run.id@ == run
                    && runs[i].metadata.git_commit->0@ == commit && forall|k: int|
                    i < k < runs.len() ==> !tells(#[trigger] runs[k], t, fails);
            assert(told_commit(runs[i]) == Some(commit));
            assert forall|k: int| i < k < runs.len() implies (#[trigger] told_commit(runs[k])) is None
                || !has_key(runs[k].run.results@, t) || is_failure(
                entry_of(runs[k].run.results@, t).status,
            ) != fails by {
                assert(!tells(runs[k], t, fails));
            }
        }
    }
}

/// A command starts from a commit at which the test fails, the first one, and one at which it
/// passes, the second one: those that are asked for, else those of the latest recorded runs with
/// such a result of the test and no uncommitted changes. Where no run failed, what is checked out
/// counts as failing. Where no run passed, the command cannot start.
pub proof fn search_starts_between_failing_and_passing(c: BisectCommand, runs: Seq<StoredRun>)
    ensures
        start_commits(c, runs) is None <==> c.good_commit is None && forall|k: int|
            0 <= k < runs.len() ==> !tells_of(#[trigger] runs[k], c.target_test@, false),
        start_commits(c, runs) matches Some((bad, good)) ==> {
            &&& match c.good_commit {
                Some(g) => good == g@,
                None => exists|i: int|
                    0 <= i < runs.len() && tells_of(#[trigger] runs[i], c.target_test@, false)
                        && runs[i].metadata.git_commit->0@ == good && forall|k: int|
                        i < k < runs.len() ==> !tells_of(#[trigger] runs[k], c.target_test@, false),
            }
            &&& match c.bad_commit {
                Some(b) => bad == b@,
                None => (bad == "HEAD"@ && forall|k: int|
                    0 <= k < runs.len() ==> !tells_of(#[trigger] runs[k], c.target_test@, true))
                    || exists|i: int|
                    0 <= i < runs.len() && tells_of(#[trigger] runs[i], c.target_test@, true)
                        && runs[i].metadata.git_commit->0@ == bad && forall|k: int|
                        i < k < runs.len() ==> !tells_of(#[trigger] runs[k], c.target_test@, true),
            }
        },
{
    let t = c.target_test@;
    latest_tells(runs, t, false);
    latest_tells(runs, t, true);
    assert forall|k: int, fails: bool| 0 <= k < runs.len() implies #[trigger] tells_of(
        runs[k],
        t,
        fails,
    ) == tells(runs[k], t, fails) by {}
    if let Some((run, commit)) = latest(runs, t, false) {
        let i = choose|i: int|
            0 <= i < runs.len() && tells(#[trigger] runs[i], t, false) && runs[i].run.id@ == run
                && runs[i].metadata.git_commit->0@ == commit && forall|k: int|
                i < k < runs.len() ==> !tells(#[trigger] runs[k], t, false);
        assert(tells_of(runs[i], t, false));
        assert forall|k: int| i < k < runs.len() implies !tells_of(#[trigger] runs[k], t, false) by {
            assert(!tells(runs[k], t, false));
        }
    } else {
        assert forall|k: int| 0 <= k < runs.len() implies !tells_of(#[trigger] runs[k], t, false) by {
            assert(!tells(runs[k], t, false));
        }
    }
    if let Some((run, commit)) = latest(runs, t, true) {
        let i = choose|i: int|
            0 <= i < runs.len() && tells(#[trigger] runs[i], t, true) && runs[i].run.id@ == run
                && runs[i].metadata.git_commit->0@ == commit && forall|k: int|
                i < k < runs.len() ==> !tells(#[trigger] runs[k], t, true);
        assert(tells_of(runs[i], t, true));
        assert forall|k: int| i < k < runs.len() implies !tells_of(#[trigger] runs[k], t, true) by {
            assert(!tells(runs[k], t, true));
        }
    } else {
        assert forall|k: int| 0 <= k < runs.len() implies !tells_of(#[trigger] runs[k], t, true) by {
            assert(!tells(runs[k], t, true));
        }
    }
}

/// Whether a run tells of a clean commit that a test fails there, or that it passes there.
pub open spec fn tells_of(r: StoredRun, t: Seq<char>, fails: bool) -> bool {
    &&& told_commit(r) is Some
    &&& has_key(r.run.results@, t)
    &&& is_failure(entry_of(r.run.results@, t).status) == fails
}

/// The commit that a run tells of: one that was recorded without uncommitted changes.
pub open spec fn told_commit(r: StoredRun) -> Option<Seq<char>> {
    match r.metadata.git_commit {
        Some(c) => if r.metadata.git_dirty == Some(true) {
            None
        } else {
            Some(c@)
        },
        None => None,
    }
}

impl Command for BisectCommand {
    fn name(&self) -> (r: &str)
        ensures
            r@ == "bisect"@,
    {
        "bisect"
    }

    fn help(&self) -> (r: &str)
        ensures
            r@ == "Bisect git history to find the commit that broke a test"@,
    {
        "Bisect git history to find the commit that broke a test"
    }
}

} // verus!
