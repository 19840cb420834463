//! Looking into strings: blanks, lines, words, pieces, occurrences.

use vstd::prelude::*;
use vstd::string::*;

use crate::text::compose::{chars, joined, slice, texts};
use crate::text::order::text_eq;

verus! {

broadcast use crate::text::compose::texts_push;

/// The characters that Unicode lists as white space.
pub open spec fn is_space(c: char) -> bool {
    let n = c as int;
    ||| 0x9 <= n <= 0xd
    ||| n == 0x20
    ||| n == 0x85
    ||| n == 0xa0
    ||| n == 0x1680
    ||| 0x2000 <= n <= 0x200a
    ||| n == 0x2028
    ||| n == 0x2029
    ||| n == 0x202f
    ||| n == 0x205f
    ||| n == 0x3000
}

/// What is left of `s` without the white space it starts with.
pub open spec fn trimmed_start(s: Seq<char>) -> Seq<char>
    decreases s.len(),
{
    if s.len() > 0 && is_space(s[0]) {
        trimmed_start(s.drop_first())
    } else {
        s
    }
}

/// What is left of `s` without the white space it ends with.
pub open spec fn trimmed_end(s: Seq<char>) -> Seq<char>
    decreases s.len(),
{
    if s.len() > 0 && is_space(s.last()) {
        trimmed_end(s.drop_last())
    } else {
        s
    }
}

/// What is left of `s` without white space at either end.
pub open spec fn trimmed(s: Seq<char>) -> Seq<char> {
    trimmed_end(trimmed_start(s))
}

/// The position of the first `c` in `s`; the length of `s` where there is none.
pub open spec fn first_index(s: Seq<char>, c: char) -> int
    decreases s.len(),
{
    if s.len() == 0 || s[0] == c {
        0
    } else {
        1 + first_index(s.drop_first(), c)
    }
}

/// The pieces of `s` between the occurrences of `sep`: one more than there are occurrences.
pub open spec fn pieces(s: Seq<char>, sep: char) -> Seq<Seq<char>>
    decreases s.len(),
    via pieces_decreases
{
    let i = first_index(s, sep);
    if i >= s.len() {
        seq![s]
    } else {
        seq![s.take(i)] + pieces(s.skip(i + 1), sep)
    }
}

#[via_fn]
proof fn pieces_decreases(s: Seq<char>, sep: char) {
    first_index_bounds(s, sep);
}

/// A line without the carriage return before its line feed.
pub open spec fn without_cr(s: Seq<char>) -> Seq<char> {
    if s.len() > 0 && s.last() == '\r' {
        s.drop_last()
    } else {
        s
    }
}

/// The lines of `s`: what stands before each line feed, less one carriage return at its end,
/// and what follows the last line feed unless that is empty.
pub open spec fn lines_of(s: Seq<char>) -> Seq<Seq<char>>
    decreases s.len(),
    via lines_decreases
{
    let i = first_index(s, '\n');
    if s.len() == 0 {
        Seq::empty()
    } else if i >= s.len() {
        seq![s]
    } else {
        seq![without_cr(s.take(i))] + lines_of(s.skip(i + 1))
    }
}

#[via_fn]
proof fn lines_decreases(s: Seq<char>) {
    first_index_bounds(s, '\n');
}

/// How many characters of `s` come before its first white space.
pub open spec fn word_len(s: Seq<char>) -> int
    decreases s.len(),
{
    if s.len() == 0 || is_space(s[0]) {
        0
    } else {
        1 + word_len(s.drop_first())
    }
}

/// The runs of characters other than white space in `s`.
pub open spec fn words_of(s: Seq<char>) -> Seq<Seq<char>>
    decreases s.len(),
    via words_decreases
{
    let t = trimmed_start(s);
    if t.len() == 0 {
        Seq::empty()
    } else {
        seq![t.take(word_len(t))] + words_of(t.skip(word_len(t)))
    }
}

#[via_fn]
proof fn words_decreases(s: Seq<char>) {
    trimmed_start_suffix(s);
    word_len_bounds(trimmed_start(s));
    let t = trimmed_start(s);
    if t.len() > 0 {
        assert(!is_space(t[0]));
    }
}

/// Whether `p` stands at position `i` of `s`.
pub open spec fn occurs_at(s: Seq<char>, p: Seq<char>, i: int) -> bool {
    0 <= i && i + p.len() <= s.len() && s.subrange(i, i + p.len()) == p
}

/// Whether `p` stands anywhere in `s`.
pub open spec fn occurs_in(s: Seq<char>, p: Seq<char>) -> bool {
    exists|i: int| #[trigger] occurs_at(s, p, i)
}

/// Whether `s` starts with `p`.
pub open spec fn has_prefix(s: Seq<char>, p: Seq<char>) -> bool {
    p.len() <= s.len() && s.take(p.len() as int) == p
}

/// Whether `s` ends with `p`.
pub open spec fn has_suffix(s: Seq<char>, p: Seq<char>) -> bool {
    p.len() <= s.len() && s.skip(s.len() - p.len()) == p
}

/// `s` with the occurrences of `p`, taken from the left and without overlap, replaced by `r`.
pub open spec fn replaced(s: Seq<char>, p: Seq<char>, r: Seq<char>) -> Seq<char>
    recommends
        p.len() > 0,
    decreases s.len(),
{
    if p.len() == 0 || s.len() < p.len() {
        s
    } else if has_prefix(s, p) {
        r + replaced(s.skip(p.len() as int), p, r)
    } else {
        seq![s[0]] + replaced(s.drop_first(), p, r)
    }
}

/// The lower-case letter of an upper-case ASCII letter; every other character itself.
pub open spec fn ascii_lower(c: char) -> char {
    if 'A' <= c && c <= 'Z' {
        (c as int + 32) as char
    } else {
        c
    }
}

/// `s` with its upper-case ASCII letters made lower-case.
pub open spec fn ascii_lowered(s: Seq<char>) -> Seq<char> {
    Seq::new(s.len(), |i: int| ascii_lower(s[i]))
}

/// The position of the first `c` is within the string or its length.
pub proof fn first_index_bounds(s: Seq<char>, c: char)
    ensures
        0 <= first_index(s, c) <= s.len(),
        first_index(s, c) < s.len() ==> s[first_index(s, c)] == c,
        forall|k: int| 0 <= k < first_index(s, c) ==> s[k] != c,
    decreases s.len(),
{
    if s.len() > 0 && s[0] != c {
        let t = s.drop_first();
        first_index_bounds(t, c);
        assert forall|k: int| 0 <= k < first_index(s, c) implies s[k] != c by {
            if k > 0 {
                assert(s[k] == t[k - 1]);
            }
        }
    }
}

/// The first position that holds `c` is found.
pub proof fn first_index_is(s: Seq<char>, c: char, n: int)
    requires
        0 <= n <= s.len(),
        n < s.len() ==> s[n] == c,
        forall|k: int| 0 <= k < n ==> s[k] != c,
    ensures
        first_index(s, c) == n,
{
    first_index_bounds(s, c);
    let m = first_index(s, c);
    if m < n {
        assert(s[m] == c);
    }
    if n < m {
        assert(s[n] == c);
    }
}

/// Trimming the start leaves a suffix that does not start with white space.
pub proof fn trimmed_start_suffix(s: Seq<char>)
    ensures
        trimmed_start(s).len() <= s.len(),
        trimmed_start(s) == s.skip(s.len() - trimmed_start(s).len()),
        trimmed_start(s).len() > 0 ==> !is_space(trimmed_start(s)[0]),
        forall|k: int| 0 <= k < s.len() - trimmed_start(s).len() ==> is_space(#[trigger] s[k]),
    decreases s.len(),
{
    if s.len() > 0 && is_space(s[0]) {
        let t = s.drop_first();
        trimmed_start_suffix(t);
        assert(t.skip(t.len() - trimmed_start(t).len()) =~= s.skip(s.len() - trimmed_start(t).len()));
        assert forall|k: int| 0 <= k < s.len() - trimmed_start(s).len() implies is_space(
            #[trigger] s[k],
        ) by {
            if k > 0 {
                assert(s[k] == t[k - 1]);
            }
        }
    } else {
        assert(s.skip(0) =~= s);
    }
}

/// The first white space is found.
pub proof fn word_len_bounds(s: Seq<char>)
    ensures
        0 <= word_len(s) <= s.len(),
        word_len(s) < s.len() ==> is_space(s[word_len(s)]),
        s.len() > 0 && !is_space(s[0]) ==> word_len(s) > 0,
        forall|k: int| 0 <= k < word_len(s) ==> !is_space(#[trigger] s[k]),
    decreases s.len(),
{
    if s.len() > 0 && !is_space(s[0]) {
        let t = s.drop_first();
        word_len_bounds(t);
        assert forall|k: int| 0 <= k < word_len(s) implies !is_space(#[trigger] s[k]) by {
            if k > 0 {
                assert(s[k] == t[k - 1]);
            }
        }
    }
}

/// The position that ends the first word is found.
pub proof fn word_len_is(s: Seq<char>, n: int)
    requires
        0 <= n <= s.len(),
        n < s.len() ==> is_space(s[n]),
        forall|k: int| 0 <= k < n ==> !is_space(#[trigger] s[k]),
    ensures
        word_len(s) == n,
{
    word_len_bounds(s);
    let m = word_len(s);
    if m < n {
        assert(is_space(s[m]));
    }
    if n < m {
        assert(is_space(s[n]));
    }
}

/// White space in front of a position is trimmed away.
pub proof fn trimmed_start_is(s: Seq<char>, n: int)
    requires
        0 <= n <= s.len(),
        n < s.len() ==> !is_space(s[n]),
        forall|k: int| 0 <= k < n ==> is_space(#[trigger] s[k]),
    ensures
        trimmed_start(s) == s.skip(n),
    decreases s.len(),
{
    if n == 0 {
        assert(s.skip(0) =~= s);
    } else {
        let t = s.drop_first();
        assert(is_space(s[0]));
        assert forall|k: int| 0 <= k < n - 1 implies is_space(#[trigger] t[k]) by {
            assert(t[k] == s[k + 1]);
        }
        trimmed_start_is(t, n - 1);
        assert(t.skip(n - 1) =~= s.skip(n));
    }
}

/// White space behind a position is trimmed away.
pub proof fn trimmed_end_is(s: Seq<char>, n: int)
    requires
        0 <= n <= s.len(),
        n > 0 ==> !is_space(s[n - 1]),
        forall|k: int| n <= k < s.len() ==> is_space(#[trigger] s[k]),
    ensures
        trimmed_end(s) == s.take(n),
    decreases s.len(),
{
    if n == s.len() {
        assert(s.take(n) =~= s);
    } else {
        assert(is_space(s[s.len() - 1]));
        trimmed_end_is(s.drop_last(), n);
        assert(s.drop_last().take(n) =~= s.take(n));
    }
}

/// Whether a character is white space.
pub fn is_space_char(c: char) -> (r: bool)
    ensures
        r == is_space(c),
{
    let n: u32 = c as u32;
    (0x9 <= n && n <= 0xd) || n == 0x20 || n == 0x85 || n == 0xa0 || n == 0x1680 || (0x2000 <= n
        && n <= 0x200a) || n == 0x2028 || n == 0x2029 || n == 0x202f || n == 0x205f || n == 0x3000
}

/// How many characters at the start of `v` are white space.
fn blank_prefix(v: &Vec<char>) -> (n: usize)
    ensures
        n <= v@.len(),
        trimmed_start(v@) == v@.skip(n as int),
{
    let mut n: usize = 0;
    while n < v.len() && is_space_char(v[n])
        invariant
            n <= v@.len(),
            forall|k: int| 0 <= k < n ==> is_space(#[trigger] v@[k]),
        decreases v@.len() - n,
    {
        n += 1;
    }
    proof {
        trimmed_start_is(v@, n as int);
    }
    n
}

/// `s` without white space at its end.
pub fn trim_end(s: &str) -> (r: String)
    ensures
        r@ == trimmed_end(s@),
{
    let v: Vec<char> = chars(s);
    let mut n: usize = v.len();
    while n > 0 && is_space_char(v[n - 1])
        invariant
            n <= v@.len(),
            forall|k: int| n <= k < v@.len() ==> is_space(#[trigger] v@[k]),
        decreases n,
    {
        n -= 1;
    }
    proof {
        trimmed_end_is(v@, n as int);
        assert(v@.take(n as int) =~= v@.subrange(0, n as int));
    }
    slice(&v, 0, n)
}

/// `s` without white space at either end.
pub fn trim(s: &str) -> (r: String)
    ensures
        r@ == trimmed(s@),
{
    let v: Vec<char> = chars(s);
    let from: usize = blank_prefix(&v);
    let rest: String = slice(&v, from, v.len());
    assert(v@.subrange(from as int, v@.len() as int) =~= v@.skip(from as int));
    trim_end(rest.as_str())
}

/// The lines of a string.
pub fn lines(s: &str) -> (r: Vec<String>)
    ensures
        texts(r@) == lines_of(s@),
{
    let v: Vec<char> = chars(s);
    let mut r: Vec<String> = Vec::new();
    let mut start: usize = 0;
    let mut i: usize = 0;
    assert(v@.skip(0) =~= v@);
    while i < v.len()
        invariant
            start <= i <= v@.len(),
            lines_of(v@) =~= texts(r@) + lines_of(v@.skip(start as int)),
            forall|k: int| start <= k < i ==> v@[k] != '\n',
        decreases v@.len() - i,
    {
        if v[i] == '\n' {
            let ghost rest = v@.skip(start as int);
            let end: usize = if i > start && v[i - 1] == '\r' {
                i - 1
            } else {
                i
            };
            proof {
                assert forall|k: int| 0 <= k < i - start implies rest[k] != '\n' by {
                    assert(rest[k] == v@[start + k]);
                }
                first_index_is(rest, '\n', i - start);
                assert(without_cr(rest.take(i - start)) =~= v@.subrange(start as int, end as int));
                assert(rest.skip(i - start + 1) =~= v@.skip(i + 1));
            }
            r.push(slice(&v, start, end));
            start = i + 1;
        }
        i += 1;
    }
    let ghost rest = v@.skip(start as int);
    if start < v.len() {
        proof {
            assert forall|k: int| 0 <= k < rest.len() implies rest[k] != '\n' by {
                assert(rest[k] == v@[start + k]);
            }
            first_index_is(rest, '\n', rest.len() as int);
            assert(rest =~= v@.subrange(start as int, v@.len() as int));
        }
        r.push(slice(&v, start, v.len()));
    }
    assert(texts(r@) =~= lines_of(v@));
    r
}

/// The pieces of a string between the occurrences of a character.
pub fn split(s: &str, sep: char) -> (r: Vec<String>)
    ensures
        texts(r@) == pieces(s@, sep),
{
    let v: Vec<char> = chars(s);
    let mut r: Vec<String> = Vec::new();
    let mut start: usize = 0;
    let mut i: usize = 0;
    assert(v@.skip(0) =~= v@);
    while i < v.len()
        invariant
            start <= i <= v@.len(),
            pieces(v@, sep) =~= texts(r@) + pieces(v@.skip(start as int), sep),
            forall|k: int| start <= k < i ==> v@[k] != sep,
        decreases v@.len() - i,
    {
        if v[i] == sep {
            let ghost rest = v@.skip(start as int);
            proof {
                assert forall|k: int| 0 <= k < i - start implies rest[k] != sep by {
                    assert(rest[k] == v@[start + k]);
                }
                first_index_is(rest, sep, i - start);
                assert(rest.take(i - start) =~= v@.subrange(start as int, i as int));
                assert(rest.skip(i - start + 1) =~= v@.skip(i + 1));
            }
            r.push(slice(&v, start, i));
            start = i + 1;
        }
        i += 1;
    }
    let ghost rest = v@.skip(start as int);
    proof {
        assert forall|k: int| 0 <= k < rest.len() implies rest[k] != sep by {
            assert(rest[k] == v@[start + k]);
        }
        first_index_is(rest, sep, rest.len() as int);
        assert(rest =~= v@.subrange(start as int, v@.len() as int));
    }
    r.push(slice(&v, start, v.len()));
    assert(texts(r@) =~= pieces(v@, sep));
    r
}

/// The words of a string.
pub fn words(s: &str) -> (r: Vec<String>)
    ensures
        texts(r@) == words_of(s@),
{
    let v: Vec<char> = chars(s);
    let mut r: Vec<String> = Vec::new();
    let mut i: usize = 0;
    assert(v@.skip(0) =~= v@);
    loop
        invariant
            i <= v@.len(),
            words_of(v@) =~= texts(r@) + words_of(v@.skip(i as int)),
        ensures
            texts(r@) =~= words_of(v@),
        decreases v@.len() - i,
    {
        let ghost rest = v@.skip(i as int);
        let mut from: usize = i;
        while from < v.len() && is_space_char(v[from])
            invariant
                i <= from <= v@.len(),
                forall|k: int| i <= k < from ==> is_space(#[trigger] v@[k]),
            decreases v@.len() - from,
        {
            from += 1;
        }
        let mut to: usize = from;
        while to < v.len() && !is_space_char(v[to])
            invariant
                from <= to <= v@.len(),
                forall|k: int| from <= k < to ==> !is_space(#[trigger] v@[k]),
            decreases v@.len() - to,
        {
            to += 1;
        }
        proof {
            assert forall|k: int| 0 <= k < from - i implies is_space(#[trigger] rest[k]) by {
                assert(rest[k] == v@[i + k]);
            }
            trimmed_start_is(rest, from - i);
            let t = rest.skip(from - i);
            assert forall|k: int| 0 <= k < to - from implies !is_space(#[trigger] t[k]) by {
                assert(t[k] == v@[from + k]);
            }
            word_len_is(t, to - from);
            assert(t.take(to - from) =~= v@.subrange(from as int, to as int));
            assert(t.skip(to - from) =~= v@.skip(to as int));
        }
        if from == v.len() {
            break;
        }
        r.push(slice(&v, from, to));
        i = to;
    }
    r
}

/// Whether `p` stands at position `i` of `v`.
fn matches_at(v: &Vec<char>, p: &Vec<char>, i: usize) -> (r: bool)
    requires
        i + p@.len() <= v@.len(),
    ensures
        r == occurs_at(v@, p@, i as int),
{
    let total: usize = v.len();
    let mut k: usize = 0;
    while k < p.len()
        invariant
            k <= p@.len(),
            total == v@.len(),
            i + p@.len() <= total,
            forall|j: int| 0 <= j < k ==> v@[i + j] == p@[j],
        decreases p@.len() - k,
    {
        if v[i + k] != p[k] {
            assert(v@.subrange(i as int, i + p@.len())[k as int] != p@[k as int]);
            return false;
        }
        k += 1;
    }
    assert(v@.subrange(i as int, i + p@.len()) =~= p@);
    true
}

/// Whether `p` stands anywhere in `s`.
pub fn contains(s: &str, p: &str) -> (r: bool)
    ensures
        r == occurs_in(s@, p@),
{
    let v: Vec<char> = chars(s);
    let q: Vec<char> = chars(p);
    if q.len() == 0 {
        assert(v@.subrange(0, 0) =~= q@);
        assert(occurs_at(s@, p@, 0));
        return true;
    }
    if q.len() > v.len() {
        return false;
    }
    let last: usize = v.len() - q.len();
    let mut i: usize = 0;
    while i <= last
        invariant
            v@ == s@,
            q@ == p@,
            last + q@.len() == v@.len(),
            last < usize::MAX,
            i <= last + 1,
            forall|k: int| 0 <= k < i ==> !#[trigger] occurs_at(v@, q@, k),
        decreases last + 1 - i,
    {
        if matches_at(&v, &q, i) {
            return true;
        }
        i += 1;
    }
    assert forall|k: int| !#[trigger] occurs_at(v@, q@, k) by {
        if occurs_at(v@, q@, k) {
            assert(k <= last);
        }
    }
    false
}

/// Whether `s` starts with `p`.
pub fn starts_with(s: &str, p: &str) -> (r: bool)
    ensures
        r == has_prefix(s@, p@),
{
    let v: Vec<char> = chars(s);
    let q: Vec<char> = chars(p);
    if q.len() > v.len() {
        return false;
    }
    assert(v@.subrange(0, q@.len() as int) =~= v@.take(q@.len() as int));
    matches_at(&v, &q, 0)
}

/// Whether `s` ends with `p`.
pub fn ends_with(s: &str, p: &str) -> (r: bool)
    ensures
        r == has_suffix(s@, p@),
{
    let v: Vec<char> = chars(s);
    let q: Vec<char> = chars(p);
    if q.len() > v.len() {
        return false;
    }
    assert(v@.subrange(v@.len() - q@.len(), v@.len() as int) =~= v@.skip(v@.len() - q@.len()));
    matches_at(&v, &q, v.len() - q.len())
}

/// What follows `p` in `s`, where `s` starts with `p`.
pub fn strip_prefix(s: &str, p: &str) -> (r: Option<String>)
    ensures
        r is Some <==> has_prefix(s@, p@),
        r matches Some(t) ==> t@ == s@.skip(p@.len() as int),
{
    if starts_with(s, p) {
        let v: Vec<char> = chars(s);
        let n: usize = chars(p).len();
        assert(v@.subrange(n as int, v@.len() as int) =~= s@.skip(n as int));
        Some(slice(&v, n, v.len()))
    } else {
        None
    }
}

/// Whether a list holds a text.
pub open spec fn has_text(list: Seq<Seq<char>>, t: Seq<char>) -> bool {
    exists|i: int| 0 <= i < list.len() && #[trigger] list[i] == t
}

/// Whether a list of strings holds a text.
pub fn contains_text(list: &Vec<String>, t: &str) -> (r: bool)
    ensures
        r == has_text(texts(list@), t@),
{
    for i in 0..list.len()
        invariant
            forall|k: int| 0 <= k < i ==> list@[k]@ != t@,
    {
        if text_eq(list[i].as_str(), t) {
            assert(texts(list@)[i as int] == t@);
            return true;
        }
    }
    assert forall|k: int| 0 <= k < texts(list@).len() implies #[trigger] texts(list@)[k] != t@ by {
        assert(list@[k]@ != t@);
    }
    false
}

/// `s` with the occurrences of `p` replaced by `r`.
pub fn replace(s: &str, p: &str, r: &str) -> (out: String)
    requires
        p@.len() > 0,
    ensures
        out@ == replaced(s@, p@, r@),
{
    let v: Vec<char> = chars(s);
    let q: Vec<char> = chars(p);
    let mut out = String::new();
    let mut i: usize = 0;
    assert(v@.skip(0) =~= v@);
    while i < v.len()
        invariant
            i <= v@.len(),
            q@ == p@,
            q@.len() > 0,
            replaced(v@, q@, r@) =~= out@ + replaced(v@.skip(i as int), q@, r@),
        decreases v@.len() - i,
    {
        let ghost rest = v@.skip(i as int);
        let found: bool = v.len() - i >= q.len() && matches_at(&v, &q, i);
        proof {
            if q@.len() <= rest.len() {
                assert(rest.take(q@.len() as int) =~= v@.subrange(i as int, i + q@.len()));
            }
            assert(found == (rest.len() >= q@.len() && has_prefix(rest, q@)));
        }
        let ghost before = out@;
        if found {
            out.append(r);
            i += q.len();
            proof {
                assert(rest.skip(q@.len() as int) =~= v@.skip(i as int));
                assert(replaced(rest, q@, r@) == r@ + replaced(v@.skip(i as int), q@, r@));
            }
        } else {
            out.push(v[i]);
            proof {
                assert(rest[0] == v@[i as int]);
                assert(rest.drop_first() =~= v@.skip(i + 1));
                if rest.len() >= q@.len() {
                    assert(replaced(rest, q@, r@) == seq![rest[0]] + replaced(v@.skip(i + 1), q@, r@));
                } else {
                    assert(replaced(rest, q@, r@) == rest);
                    assert(replaced(v@.skip(i + 1), q@, r@) == v@.skip(i + 1));
                    assert(rest =~= seq![rest[0]] + v@.skip(i + 1));
                }
            }
            i += 1;
        }
    }
    assert(v@.skip(i as int).len() == 0);
    assert(out@ =~= replaced(v@, q@, r@));
    out
}

/// `s` with its upper-case ASCII letters made lower-case.
pub fn to_ascii_lower(s: &str) -> (r: String)
    ensures
        r@ == ascii_lowered(s@),
{
    let v: Vec<char> = chars(s);
    let mut r = String::new();
    for i in 0..v.len()
        invariant
            r@ =~= ascii_lowered(v@.take(i as int)),
    {
        let c: char = v[i];
        let d: char = if 'A' <= c && c <= 'Z' {
            ((c as u8) + 32) as char
        } else {
            c
        };
        r.push(d);
    }
    assert(v@.take(v@.len() as int) =~= v@);
    r
}

/// Whether two strings are the same but for the case of ASCII letters.
pub fn eq_ignore_ascii_case(a: &str, b: &str) -> (r: bool)
    ensures
        r == (ascii_lowered(a@) == ascii_lowered(b@)),
{
    text_eq(to_ascii_lower(a).as_str(), to_ascii_lower(b).as_str())
}

/// What `str::to_lowercase` of std makes of a text.
pub uninterp spec fn unicode_lowered(s: Seq<char>) -> Seq<char>;

/// `str::to_lowercase` of std gives the lower-case form of a text by the rules of Unicode. Of a
/// text in ASCII that is the text with its letters made lower-case.
#[verifier::external_body]
pub(crate) fn lowercase(s: &str) -> (r: String)
    ensures
        r@ == unicode_lowered(s@),
        is_ascii(s) ==> r@ == ascii_lowered(s@),
{
    s.to_lowercase()
}

/// The position of the last place at which `p` stands in the first `n` positions of `s`; -1 where
/// there is none.
pub open spec fn last_occurrence(s: Seq<char>, p: Seq<char>, n: int) -> int
    decreases n,
{
    if n <= 0 {
        -1
    } else if occurs_at(s, p, n - 1) {
        n - 1
    } else {
        last_occurrence(s, p, n - 1)
    }
}

/// The last place at which `p` stands in `v`.
pub fn rfind(v: &Vec<char>, p: &str) -> (r: Option<usize>)
    ensures
        match r {
            Some(i) => i == last_occurrence(v@, p@, v@.len() as int) && i + p@.len() <= v@.len(),
            None => last_occurrence(v@, p@, v@.len() as int) == -1,
        },
{
    let q: Vec<char> = chars(p);
    let mut n: usize = v.len();
    while n > 0
        invariant
            n <= v@.len(),
            q@ == p@,
            last_occurrence(v@, p@, v@.len() as int) == last_occurrence(v@, p@, n as int),
        decreases n,
    {
        let i: usize = n - 1;
        if q.len() <= v.len() - i && matches_at(v, &q, i) {
            return Some(i);
        }
        n -= 1;
    }
    None
}

/// A separator and a piece without separators add one piece.
pub proof fn pieces_push(x: Seq<char>, sep: char, y: Seq<char>)
    requires
        forall|k: int| 0 <= k < y.len() ==> y[k] != sep,
    ensures
        pieces(x + seq![sep] + y, sep) == pieces(x, sep).push(y),
    decreases x.len(),
{
    let s = x + seq![sep] + y;
    let i = first_index(x, sep);
    first_index_bounds(x, sep);
    first_index_is(y, sep, y.len() as int);
    if i >= x.len() {
        first_index_is(s, sep, x.len() as int);
        assert(s.take(x.len() as int) =~= x);
        assert(s.skip(x.len() as int + 1) =~= y);
        assert(pieces(y, sep) =~= seq![y]);
        assert(pieces(s, sep) == seq![x] + pieces(y, sep));
        assert(pieces(s, sep) =~= seq![x].push(y));
    } else {
        assert(s[i] == x[i]);
        assert forall|k: int| 0 <= k < i implies s[k] != sep by {
            assert(s[k] == x[k]);
        }
        first_index_is(s, sep, i);
        let rest = x.skip(i + 1);
        pieces_push(rest, sep, y);
        assert(s.take(i) =~= x.take(i));
        assert(s.skip(i + 1) =~= rest + seq![sep] + y);
        assert(pieces(s, sep) =~= pieces(x, sep).push(y));
    }
}

/// Pieces that are joined by a separator that none of them holds can be told apart again.
pub proof fn pieces_of_joined(list: Seq<Seq<char>>, sep: char)
    requires
        list.len() > 0,
        forall|i: int, k: int|
            0 <= i < list.len() && 0 <= k < list[i].len() ==> #[trigger] list[i][k] != sep,
    ensures
        pieces(joined(list, seq![sep]), sep) == list,
    decreases list.len(),
{
    let y = list.last();
    assert forall|k: int| 0 <= k < y.len() implies y[k] != sep by {
        assert(list[list.len() - 1][k] != sep);
    }
    if list.len() == 1 {
        first_index_is(y, sep, y.len() as int);
        assert(pieces(y, sep) =~= list);
    } else {
        let init = list.drop_last();
        assert forall|i: int, k: int| 0 <= i < init.len() && 0 <= k < init[i].len() implies
            #[trigger] init[i][k] != sep by {
            assert(list[i][k] != sep);
        }
        pieces_of_joined(init, sep);
        pieces_push(joined(init, seq![sep]), sep, y);
        assert(init.push(y) =~= list);
    }
}

/// Whether a text is empty or ends with a line feed.
pub open spec fn ends_line(s: Seq<char>) -> bool {
    s.len() == 0 || s.last() == '\n'
}

/// A line that is put behind whole lines is one more line.
pub proof fn lines_push(x: Seq<char>, line: Seq<char>)
    requires
        ends_line(x),
        forall|k: int| 0 <= k < line.len() ==> line[k] != '\n' && line[k] != '\r',
    ensures
        lines_of(x + line + seq!['\n']) == lines_of(x).push(line),
    decreases x.len(),
{
    let s = x + line + seq!['\n'];
    if x.len() == 0 {
        first_index_is(s, '\n', line.len() as int);
        assert(s.take(line.len() as int) =~= line);
        assert(s.skip(line.len() as int + 1) =~= Seq::<char>::empty());
        assert(without_cr(line) == line);
        assert(lines_of(Seq::<char>::empty()) =~= Seq::<Seq<char>>::empty());
        assert(x =~= Seq::<char>::empty());
        assert(lines_of(s) == seq![line] + lines_of(Seq::<char>::empty()));
        assert(lines_of(s) =~= lines_of(x).push(line));
    } else {
        let i = first_index(x, '\n');
        first_index_bounds(x, '\n');
        if i >= x.len() {
            assert(x[x.len() - 1] != '\n');
        }
        assert(s[i] == x[i]);
        assert forall|k: int| 0 <= k < i implies s[k] != '\n' by {
            assert(s[k] == x[k]);
        }
        first_index_is(s, '\n', i);
        let rest = x.skip(i + 1);
        if rest.len() > 0 {
            assert(rest.last() == x.last());
        }
        lines_push(rest, line);
        assert(s.take(i) =~= x.take(i));
        assert(s.skip(i + 1) =~= rest + line + seq!['\n']);
        assert(lines_of(s) =~= lines_of(x).push(line));
    }
}

} // verus!
