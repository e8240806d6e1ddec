use vstd::prelude::*;

verus! {

#[verifier::external_type_specification]
#[verifier::external_body]
pub struct ExRegex(regex::Regex);

#[verifier::external_type_specification]
#[verifier::external_body]
pub struct ExRegexError(regex::Error);

/// Whether `pattern` is a regular expression that the regex crate accepts.
pub uninterp spec fn regex_compiles(pattern: Seq<char>) -> bool;

/// Whether the regular expression `pattern` matches somewhere in `text`.
pub uninterp spec fn regex_finds(pattern: Seq<char>, text: Seq<char>) -> bool;

/// The groups of the leftmost match of `pattern` in `text`: the whole match
/// first, then each group, absent where the group took no part.
pub uninterp spec fn regex_groups(pattern: Seq<char>, text: Seq<char>) -> Seq<Option<Seq<char>>>;

/// The views of a list of groups.
pub open spec fn group_views(v: Seq<Option<String>>) -> Seq<Option<Seq<char>>> {
    v.map_values(|g: Option<String>| match g {
        Some(s) => Some(s@),
        None => None,
    })
}

/// Why a pattern was refused.
#[derive(Debug, PartialEq, Eq, Clone)]
pub enum RegexError {
    Invalid,
}

/// Relies on `regex::Regex::new`: it accepts exactly the valid patterns.
#[verifier::external_body]
fn compile(pattern: &str) -> (r: Result<regex::Regex, regex::Error>)
    ensures
        r is Ok == regex_compiles(pattern@),
{
    regex::Regex::new(pattern)
}

/// A compiled regular expression, with the pattern it was compiled from.
#[derive(Debug)]
pub struct Pattern {
    source: String,
    compiled: regex::Regex,
}

/// Relies on `regex::Regex::is_match` on a regex compiled from `re`'s pattern.
#[verifier::external_body]
fn find(re: &Pattern, text: &str) -> (r: bool)
    ensures
        r == regex_finds(re@, text@),
{
    re.compiled.is_match(text)
}

/// Relies on `regex::Regex::captures` on a regex compiled from `re`'s pattern:
/// `None` exactly when there is no match.
#[verifier::external_body]
fn groups(re: &Pattern, text: &str) -> (r: Option<Vec<Option<String>>>)
    ensures
        r is Some == regex_finds(re@, text@),
        r matches Some(v) ==> group_views(v@) == regex_groups(re@, text@),
{
    re.compiled.captures(text).map(|caps| caps.iter().map(|g| g.map(|m| m.as_str().to_string())).collect())
}

impl View for Pattern {
    type V = Seq<char>;

    closed spec fn view(&self) -> Seq<char> {
        self.source@
    }
}

impl Pattern {
    /// Compiles `pattern`; fails exactly when the regex crate refuses it.
    pub fn new(pattern: &str) -> (r: Result<Pattern, RegexError>)
        ensures
            r is Ok == regex_compiles(pattern@),
            r matches Ok(re) ==> re@ == pattern@,
    {
        match compile(pattern) {
            Ok(compiled) => Ok(Pattern { source: String::from_str(pattern), compiled }),
            Err(_) => Err(RegexError::Invalid),
        }
    }

    /// Whether the pattern matches somewhere in `text`.
    pub fn is_match(&self, text: &str) -> (r: bool)
        ensures
            r == regex_finds(self@, text@),
    {
        find(self, text)
    }

    /// The groups of the leftmost match, the whole match first; `None` when
    /// there is no match.
    pub fn captures(&self, text: &str) -> (r: Option<Vec<Option<String>>>)
        ensures
            r is Some == regex_finds(self@, text@),
            r matches Some(v) ==> group_views(v@) == regex_groups(self@, text@),
    {
        groups(self, text)
    }

    /// The pattern.
    pub fn as_str(&self) -> (r: &str)
        ensures
            r@ == self@,
    {
        self.source.as_str()
    }
}

} // verus!
