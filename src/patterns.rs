//! Compiled glob and regex rules, matched against one directory name.

use vstd::prelude::*;

use crate::error::UpError;

verus! {

#[verifier::external_type_specification]
#[verifier::external_body]
pub struct ExPattern(glob::Pattern);

#[verifier::external_type_specification]
#[verifier::external_body]
pub struct ExPatternError(glob::PatternError);

#[verifier::external_type_specification]
#[verifier::external_body]
pub struct ExRegex(regex::Regex);

#[verifier::external_type_specification]
#[verifier::external_body]
pub struct ExRegexError(regex::Error);

/// Whether glob accepts `pattern` as a pattern.
pub uninterp spec fn glob_accepts(pattern: Seq<char>) -> bool;

/// Whether the glob `pattern` matches the whole of `name`.
pub uninterp spec fn glob_match(pattern: Seq<char>, name: Seq<char>) -> bool;

/// Whether regex accepts `pattern` as a regular expression.
pub uninterp spec fn regex_accepts(pattern: Seq<char>) -> bool;

/// Whether the regular expression `pattern` matches somewhere in `haystack`.
pub uninterp spec fn regex_finds(pattern: Seq<char>, haystack: Seq<char>) -> bool;

/// Relies on glob::Pattern::new: it fails exactly on the patterns that glob
/// rejects, which depends on the pattern's text alone.
#[verifier::external_body]
fn compile_glob(text: &str) -> (r: Result<glob::Pattern, glob::PatternError>)
    ensures
        r is Ok <==> glob_accepts(text@),
{
    glob::Pattern::new(text)
}

/// Relies on regex::Regex::new: it fails exactly on the expressions that
/// regex rejects, which depends on the expression's text alone.
#[verifier::external_body]
fn compile_regex(text: &str) -> (r: Result<regex::Regex, regex::Error>)
    ensures
        r is Ok <==> regex_accepts(text@),
{
    regex::Regex::new(text)
}

/// A glob pattern, kept with the text it was compiled from.
pub struct GlobRule {
    text: String,
    compiled: glob::Pattern,
}

/// A regular expression, kept with the text it was compiled from.
pub struct RegexRule {
    text: String,
    compiled: regex::Regex,
}

impl View for GlobRule {
    type V = Seq<char>;

    closed spec fn view(&self) -> Seq<char> {
        self.text@
    }
}

impl View for RegexRule {
    type V = Seq<char>;

    closed spec fn view(&self) -> Seq<char> {
        self.text@
    }
}

/// Relies on glob::Pattern::matches, with the default options, on the
/// pattern that `GlobRule::new` compiled from the rule's text.
#[verifier::external_body]
fn glob_rule_matches(rule: &GlobRule, name: &str) -> (r: bool)
    ensures
        r == glob_match(rule@, name@),
{
    rule.compiled.matches(name)
}

/// Relies on regex::Regex::is_match, on the expression that
/// `RegexRule::new` compiled from the rule's text.
#[verifier::external_body]
fn regex_rule_matches(rule: &RegexRule, haystack: &str) -> (r: bool)
    ensures
        r == regex_finds(rule@, haystack@),
{
    rule.compiled.is_match(haystack)
}

impl GlobRule {
    /// Compiles `text` as a glob pattern.
    pub fn new(text: &str) -> (r: Result<GlobRule, UpError>)
        ensures
            r is Ok <==> glob_accepts(text@),
            r is Ok ==> r->Ok_0@ == text@,
            r is Err ==> r->Err_0 == UpError::InvalidPattern,
    {
        match compile_glob(text) {
            Ok(compiled) => Ok(GlobRule { text: text.to_owned(), compiled }),
            Err(_) => Err(UpError::InvalidPattern),
        }
    }

    /// Whether the pattern matches the whole of `name`.
    pub fn matches(&self, name: &str) -> (r: bool)
        ensures
            r == glob_match(self@, name@),
    {
        glob_rule_matches(self, name)
    }
}

impl RegexRule {
    /// Compiles `text` as a regular expression.
    pub fn new(text: &str) -> (r: Result<RegexRule, UpError>)
        ensures
            r is Ok <==> regex_accepts(text@),
            r is Ok ==> r->Ok_0@ == text@,
            r is Err ==> r->Err_0 == UpError::InvalidPattern,
    {
        match compile_regex(text) {
            Ok(compiled) => Ok(RegexRule { text: text.to_owned(), compiled }),
            Err(_) => Err(UpError::InvalidPattern),
        }
    }

    /// Whether the expression matches somewhere in `haystack`.
    pub fn is_match(&self, haystack: &str) -> (r: bool)
        ensures
            r == regex_finds(self@, haystack@),
    {
        regex_rule_matches(self, haystack)
    }
}

} // verus!
