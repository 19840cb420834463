//! Regular expressions.

use vstd::prelude::*;

verus! {

/// A compiled regular expression of the `regex` crate.
#[verifier::external_type_specification]
#[verifier::external_body]
pub struct ExRegex(regex::Regex);

/// Why `regex::Regex::new` refuses a pattern: the text of its error, or `None` where it compiles
/// the pattern.
pub uninterp spec fn regex_error(pattern: Seq<char>) -> Option<Seq<char>>;

/// Whether `regex::Regex::is_match` finds a match of a pattern anywhere in a text.
pub uninterp spec fn regex_matches(pattern: Seq<char>, text: Seq<char>) -> bool;

/// What `regex::Regex::replace_all` makes of a text, given a pattern and a replacement.
pub uninterp spec fn regex_replaced(
    pattern: Seq<char>,
    text: Seq<char>,
    replacement: Seq<char>,
) -> Seq<char>;

/// A match of a pattern in a text.
pub struct MatchTexts {
    /// How many bytes of the text lie before the end of the match.
    pub end: nat,
    /// The groups of the pattern: the whole match first, `None` for a group that takes no part.
    pub groups: Seq<Option<Seq<char>>>,
}

/// The matches that `regex::Regex::captures_iter` finds in a text, in order.
pub uninterp spec fn regex_captures(pattern: Seq<char>, text: Seq<char>) -> Seq<MatchTexts>;

/// A match of a pattern in a text.
#[derive(Debug)]
pub struct Match {
    /// How many bytes of the text lie before the end of the match.
    pub end: usize,
    /// The groups of the pattern: the whole match first, `None` for a group that takes no part.
    pub groups: Vec<Option<String>>,
}

impl View for Match {
    type V = MatchTexts;

    open spec fn view(&self) -> MatchTexts {
        MatchTexts { end: self.end as nat, groups: optional_texts(self.groups@) }
    }
}

/// A regular expression with the pattern that it was compiled from.
#[derive(Debug)]
pub struct Regexp {
    source: String,
    regex: regex::Regex,
}

impl View for Regexp {
    type V = Seq<char>;

    /// The pattern.
    closed spec fn view(&self) -> Seq<char> {
        self.source@
    }
}

/// The texts of optional strings.
pub open spec fn optional_texts(v: Seq<Option<String>>) -> Seq<Option<Seq<char>>> {
    Seq::new(
        v.len(),
        |i: int|
            match v[i] {
                Some(s) => Some(s@),
                None => None,
            },
    )
}

/// The texts of matches.
pub open spec fn match_texts(v: Seq<Match>) -> Seq<MatchTexts> {
    Seq::new(v.len(), |i: int| v[i]@)
}

impl Regexp {
    /// `regex::Regex::new` compiles a pattern or gives an error, here as its text.
    #[verifier::external_body]
    pub(crate) fn compile(pattern: &str) -> (r: core::result::Result<Regexp, String>)
        ensures
            match regex_error(pattern@) {
                None => r matches Ok(re) && re@ == pattern@,
                Some(e) => r matches Err(s) && s@ == e,
            },
    {
        match regex::Regex::new(pattern) {
            Ok(regex) => Ok(Regexp { source: pattern.to_owned(), regex }),
            Err(e) => Err(e.to_string()),
        }
    }

    /// `regex::Regex::is_match` says whether the expression matches anywhere in a text.
    #[verifier::external_body]
    pub(crate) fn is_match(&self, text: &str) -> (r: bool)
        ensures
            r == regex_matches(self@, text@),
    {
        self.regex.is_match(text)
    }

    /// `regex::Regex::replace_all` replaces every match, the replacement with its group
    /// references filled in.
    #[verifier::external_body]
    pub(crate) fn replace_all(&self, text: &str, replacement: &str) -> (r: String)
        ensures
            r@ == regex_replaced(self@, text@, replacement@),
    {
        self.regex.replace_all(text, replacement).into_owned()
    }

    /// `regex::Regex::captures_iter` goes through the matches, with where they end and their
    /// groups. Every match has the whole match as its first group.
    #[verifier::external_body]
    pub(crate) fn captures(&self, text: &str) -> (r: Vec<Match>)
        ensures
            match_texts(r@) == regex_captures(self@, text@),
            forall|i: int|
                0 <= i < r@.len() ==> (#[trigger] r@[i]).groups@.len() > 0 && r@[i].groups@[0]
                    is Some,
    {
        self.regex
            .captures_iter(text)
            .map(|c| Match {
                end: c.get_match().end(),
                groups: c.iter().map(|g| g.map(|m| m.as_str().to_owned())).collect(),
            })
            .collect()
    }
}

/// Whether a character has a meaning of its own in a pattern.
pub open spec fn is_meta(c: char) -> bool {
    c == '\\' || c == '.' || c == '+' || c == '*' || c == '?' || c == '(' || c == ')' || c == '|'
        || c == '[' || c == ']' || c == '{' || c == '}' || c == '^' || c == '$' || c == '#' || c
        == '&' || c == '-' || c == '~'
}

/// A text with a backslash before each character that has a meaning of its own in a pattern.
pub open spec fn escaped(s: Seq<char>) -> Seq<char>
    decreases s.len(),
{
    if s.len() == 0 {
        s
    } else if is_meta(s.last()) {
        escaped(s.drop_last()) + seq!['\\', s.last()]
    } else {
        escaped(s.drop_last()).push(s.last())
    }
}

/// `regex::escape` puts a backslash before each character that has a meaning of its own in a
/// pattern.
#[verifier::external_body]
pub(crate) fn escape(s: &str) -> (r: String)
    ensures
        r@ == escaped(s@),
{
    regex::escape(s)
}

} // verus!
