//! The text half of a search term: a literal substring or a regular expression.

use regex::{Regex, RegexBuilder};
use vstd::prelude::*;

use crate::text::{chars_of, contains_chars, is_substring, lowercase, to_lowercase};

verus! {

/// How the text of a search term is interpreted.
#[derive(Debug, Clone, PartialEq, Eq)]
pub enum TextPattern {
    /// A literal substring, matched case-insensitively.
    Substring(String),
    /// A regular expression, matched case-insensitively unless it says `(?-i)` itself.
    Regex(String),
}

/// A compiled regular expression of the `regex` crate.
#[verifier::external_type_specification]
#[verifier::external_body]
pub struct ExRegex(Regex);

/// The case-insensitive regular expression that a pattern compiles to; `None` where it does
/// not compile.
pub uninterp spec fn built_regex(pattern: Seq<char>) -> Option<Regex>;

/// Whether a compiled regular expression finds a match in a text.
pub uninterp spec fn regex_accepts(regex: Regex, text: Seq<char>) -> bool;

/// `regex`'s `RegexBuilder::build`, with case-insensitivity switched on: what comes back, or
/// that the pattern does not compile, is a function of the pattern alone.
#[verifier::external_body]
fn build_regex(pattern: &str) -> (r: Option<Regex>)
    ensures
        r == built_regex(pattern@),
{
    RegexBuilder::new(pattern).case_insensitive(true).build().ok()
}

/// `regex`'s `Regex::is_match`: whether a match stands anywhere in the text, a function of the
/// expression and the text alone.
#[verifier::external_body]
fn finds_match(regex: &Regex, text: &str) -> (r: bool)
    ensures
        r == regex_accepts(*regex, text@),
{
    regex.is_match(text)
}

/// A pattern finds a match in a text. A regular expression that does not compile never does.
pub open spec fn pattern_matches(pattern: TextPattern, text: Seq<char>) -> bool {
    match pattern {
        TextPattern::Substring(needle) => is_substring(lowercase(text), lowercase(needle@)),
        TextPattern::Regex(source) => match built_regex(source@) {
            Some(regex) => regex_accepts(regex, text),
            None => false,
        },
    }
}

/// A pattern prepared for repeated matching.
pub enum CompiledPattern {
    /// A lowercased needle, looked for in the lowercased text.
    Substring(Vec<char>),
    Regex(Regex),
    /// A regular expression that did not compile.
    Never,
}

impl CompiledPattern {
    /// What a prepared pattern says of a text, given both its spellings.
    pub open spec fn accepts(self, original: Seq<char>, lowercased: Seq<char>) -> bool {
        match self {
            CompiledPattern::Substring(needle) => is_substring(lowercased, needle@),
            CompiledPattern::Regex(regex) => regex_accepts(regex, original),
            CompiledPattern::Never => false,
        }
    }

    /// Tests a text in both its spellings. A substring is looked for in the lowercased one; a
    /// regular expression sees the original, so that it can ask for case to matter.
    pub fn is_match(&self, original: &str, lowercased: &str) -> (r: bool)
        ensures
            r == self.accepts(original@, lowercased@),
    {
        match self {
            CompiledPattern::Substring(needle) => contains_chars(&chars_of(lowercased), needle),
            CompiledPattern::Regex(regex) => finds_match(regex, original),
            CompiledPattern::Never => false,
        }
    }
}

impl TextPattern {
    /// Prepares this pattern for repeated matching.
    pub fn compile(&self) -> (r: CompiledPattern)
        ensures
            forall|text: Seq<char>| #[trigger]
                r.accepts(text, lowercase(text)) == pattern_matches(*self, text),
            match (*self, r) {
                (TextPattern::Substring(needle), CompiledPattern::Substring(lower)) => lower@
                    == lowercase(needle@),
                (TextPattern::Regex(source), CompiledPattern::Regex(regex)) => built_regex(source@)
                    == Some(regex),
                (TextPattern::Regex(source), CompiledPattern::Never) => built_regex(
                    source@,
                ) is None,
                _ => false,
            },
    {
        match self {
            TextPattern::Substring(needle) => CompiledPattern::Substring(
                chars_of(to_lowercase(needle.as_str()).as_str()),
            ),
            TextPattern::Regex(source) => match build_regex(source.as_str()) {
                Some(regex) => CompiledPattern::Regex(regex),
                None => CompiledPattern::Never,
            },
        }
    }
}

} // verus!
