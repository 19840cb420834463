//! Patterns of the kind that shells use.

use vstd::prelude::*;

verus! {

/// A compiled pattern of the `glob` crate.
#[verifier::external_type_specification]
#[verifier::external_body]
pub struct ExPattern(glob::Pattern);

/// Why `glob::Pattern::new` refuses a pattern: the text of its error, or `None` where it compiles
/// the pattern.
pub uninterp spec fn glob_error(pattern: Seq<char>) -> Option<Seq<char>>;

/// Whether `glob::Pattern::matches` says that a text matches a pattern.
pub uninterp spec fn glob_matches(pattern: Seq<char>, text: Seq<char>) -> bool;

/// A pattern with the text that it was compiled from.
#[derive(Debug)]
pub struct Glob {
    source: String,
    pattern: glob::Pattern,
}

impl View for Glob {
    type V = Seq<char>;

    /// The text.
    closed spec fn view(&self) -> Seq<char> {
        self.source@
    }
}

impl Glob {
    /// `glob::Pattern::new` compiles a pattern. Which patterns it refuses, and what it says of
    /// them, has the name [`glob_error`].
    #[verifier::external_body]
    pub(crate) fn compile_pattern(source: &str) -> (r: core::result::Result<Glob, String>)
        ensures
            match r {
                Ok(g) => glob_error(source@) is None && g@ == source@,
                Err(e) => glob_error(source@) == Some(e@),
            },
    {
        match glob::Pattern::new(source) {
            Ok(pattern) => Ok(Glob { source: source.to_string(), pattern }),
            Err(e) => Err(e.to_string()),
        }
    }

    /// Compiles a pattern.
    pub fn new(source: &str) -> (r: core::result::Result<Glob, String>)
        ensures
            match glob_error(source@) {
                None => r matches Ok(g) && g@ == source@,
                Some(m) => r matches Err(e) && e@ == m,
            },
    {
        Glob::compile_pattern(source)
    }

    /// `glob::Pattern::matches` tells whether a text matches the pattern. What it says has the
    /// name [`glob_matches`].
    #[verifier::external_body]
    pub(crate) fn is_match(&self, text: &str) -> (r: bool)
        ensures
            r == glob_matches(self@, text@),
    {
        self.pattern.matches(text)
    }

    /// The text of the pattern.
    pub fn as_str(&self) -> (r: &str)
        ensures
            r@ == self@,
    {
        self.source.as_str()
    }
}

/// The texts of patterns.
pub open spec fn sources(v: Seq<Glob>) -> Seq<Seq<char>> {
    Seq::new(v.len(), |i: int| v[i]@)
}

/// Whether a text matches one of the patterns, or there are none.
pub open spec fn matches_any(patterns: Seq<Seq<char>>, text: Seq<char>) -> bool {
    patterns.len() == 0 || exists|i: int|
        0 <= i < patterns.len() && glob_matches(#[trigger] patterns[i], text)
}

/// Whether a text matches one of the patterns, or there are none.
pub fn matches_any_pattern(text: &str, patterns: &Vec<Glob>) -> (r: bool)
    ensures
        r == matches_any(sources(patterns@), text@),
{
    if patterns.len() == 0 {
        return true;
    }
    let ghost all = sources(patterns@);
    for i in 0..patterns.len()
        invariant
            all == sources(patterns@),
            forall|k: int| 0 <= k < i ==> !glob_matches(#[trigger] all[k], text@),
    {
        if patterns[i].is_match(text) {
            assert(glob_matches(all[i as int], text@));
            return true;
        }
    }
    false
}

} // verus!
