//! The trusted boundary around the `regex` crate: compiled name patterns.
//!
//! A [`NamePattern`] couples a compiled `regex::Regex` with the pattern text
//! it was compiled from; its view is that text. What compilation and
//! matching return is named by two uninterpreted spec functions, since both
//! results depend on the pattern text (and haystack) alone.

use vstd::prelude::*;

verus! {

/// Whether `regex::Regex::new` accepts `pattern` as a valid regular
/// expression (with the crate's default configuration).
pub uninterp spec fn pattern_accepted(pattern: Seq<char>) -> bool;

/// Whether the regular expression compiled from `pattern` matches anywhere
/// inside `text` (substring search, not full-string anchoring).
pub uninterp spec fn pattern_found_in(pattern: Seq<char>, text: Seq<char>) -> bool;

#[verifier::external_type_specification]
#[verifier::external_body]
pub struct ExRegex(regex::Regex);

/// A regular expression together with the text it was compiled from.
#[derive(Debug)]
pub struct NamePattern {
    regex: regex::Regex,
    source: String,
}

impl View for NamePattern {
    type V = Seq<char>;

    closed spec fn view(&self) -> Seq<char> {
        self.source@
    }
}

impl NamePattern {
    /// Relies on `regex::Regex::new`: whether a pattern compiles depends on
    /// the pattern text alone, and the compiled value searches per that text.
    #[verifier::external_body]
    pub fn compile(pattern: &String) -> (r: Option<NamePattern>)
        ensures
            r is Some <==> pattern_accepted(pattern@),
            r matches Some(p) ==> p@ == pattern@,
    {
        match regex::Regex::new(pattern) {
            Ok(regex) => Some(NamePattern { regex, source: pattern.clone() }),
            Err(_) => None,
        }
    }

    /// Relies on `regex::Regex::is_match`: true iff the pattern matches
    /// anywhere in the haystack; the result depends on the pattern text and
    /// the haystack alone.
    #[verifier::external_body]
    pub fn is_match(&self, text: &String) -> (r: bool)
        ensures
            r == pattern_found_in(self@, text@),
    {
        self.regex.is_match(text)
    }

    /// The text this pattern was compiled from.
    pub fn source(&self) -> (r: &String)
        ensures
            r@ == self@,
    {
        &self.source
    }
}

} // verus!
