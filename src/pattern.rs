//! Regular expressions from the `regex` crate, held together with their source text.

use vstd::prelude::*;

use regex::Regex;

verus! {

#[verifier::external_type_specification]
#[verifier::external_body]
pub struct ExRegex(Regex);

#[verifier::external_type_specification]
#[verifier::external_body]
pub struct ExRegexError(regex::Error);

/// Whether the pattern compiles.
pub uninterp spec fn regex_compiles(pattern: Seq<char>) -> bool;

/// Whether the pattern matches somewhere in the text.
pub uninterp spec fn regex_is_match(pattern: Seq<char>, text: Seq<char>) -> bool;

/// The names of the pattern's capture groups, by group index; the whole match is group 0.
pub uninterp spec fn regex_group_names(pattern: Seq<char>) -> Seq<Option<Seq<char>>>;

/// The text captured by each group of the first match, by group index.
pub uninterp spec fn regex_captures(pattern: Seq<char>, text: Seq<char>) -> Seq<Option<Seq<char>>>;

pub open spec fn opt_texts_view(v: Seq<Option<String>>) -> Seq<Option<Seq<char>>> {
    v.map_values(|o: Option<String>| match o {
        Some(s) => Some(s@),
        None => None,
    })
}

/// A compiled regular expression and the text it was compiled from.
pub struct Pattern {
    source: String,
    regex: Regex,
}

impl Pattern {
    /// The text the expression was compiled from.
    pub closed spec fn source(&self) -> Seq<char> {
        self.source@
    }

    /// Relies on `Regex::new`: it accepts a pattern when the pattern compiles.
    #[verifier::external_body]
    fn compile(pattern: &str) -> (r: Result<Pattern, regex::Error>)
        ensures
            r is Ok <==> regex_compiles(pattern@),
            r matches Ok(p) ==> p.source() == pattern@,
    {
        Regex::new(pattern).map(|regex| Pattern { source: pattern.to_owned(), regex })
    }

    /// Compiles `pattern`.
    pub fn new(pattern: &str) -> (r: Result<Pattern, regex::Error>)
        ensures
            r is Ok <==> regex_compiles(pattern@),
            r matches Ok(p) ==> p.source() == pattern@,
    {
        Pattern::compile(pattern)
    }

    pub fn as_str(&self) -> (r: &str)
        ensures
            r@ == self.source(),
    {
        self.source.as_str()
    }

    /// Relies on `Regex::is_match`: whether the expression matches somewhere in `text`.
    #[verifier::external_body]
    pub fn is_match(&self, text: &str) -> (r: bool)
        ensures
            r == regex_is_match(self.source(), text@),
    {
        self.regex.is_match(text)
    }

    /// Relies on `Regex::capture_names`: the group names, by group index.
    #[verifier::external_body]
    pub fn group_names(&self) -> (r: Vec<Option<String>>)
        ensures
            opt_texts_view(r@) == regex_group_names(self.source()),
    {
        self.regex.capture_names().map(|n| n.map(|s| s.to_owned())).collect()
    }

    /// Relies on `Regex::captures` and `Captures::iter`: the groups of the first match,
    /// by group index, or nothing when the expression does not match.
    #[verifier::external_body]
    pub fn captures(&self, text: &str) -> (r: Option<Vec<Option<String>>>)
        ensures
            r is Some <==> regex_is_match(self.source(), text@),
            r matches Some(g) ==> opt_texts_view(g@) == regex_captures(self.source(), text@),
    {
        self.regex.captures(text).map(|c| c.iter().map(|m| m.map(|m| m.as_str().to_owned())).collect())
    }
}

} // verus!
