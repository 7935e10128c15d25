//! Regular expressions, through the `regex` crate.
use vstd::prelude::*;

verus! {

#[verifier::external_type_specification]
#[verifier::external_body]
pub struct ExRegex(regex::Regex);

#[verifier::external_type_specification]
#[verifier::external_body]
pub struct ExRegexError(regex::Error);

/// Whether `pattern` compiles as a regular expression under the `regex`
/// crate's default options.
pub uninterp spec fn regex_compiles(pattern: Seq<char>) -> bool;

/// For each successive non-overlapping match of `pattern` in `text`, the
/// text of capture group 1, or `None` where that group took no part in the
/// match.
pub uninterp spec fn group_one_matches(pattern: Seq<char>, text: Seq<char>) -> Seq<Option<Seq<char>>>;

/// Whether `pattern` matches anywhere in `text` (`Regex::is_match`).
pub uninterp spec fn regex_is_match(pattern: Seq<char>, text: Seq<char>) -> bool;

/// A compiled regular expression together with the pattern it was compiled
/// from. Its fields are private and `compile` is its only constructor, so
/// the regex is always the compilation of the pattern.
pub struct Pattern {
    re: regex::Regex,
    text: Ghost<Seq<char>>,
}

impl View for Pattern {
    type V = Seq<char>;

    /// The pattern the regex was compiled from.
    closed spec fn view(&self) -> Seq<char> {
        self.text@
    }
}

/// Compiles a regular expression (`Regex::new`). The crate's documentation
/// says it fails on a syntax error or when the compiled program would
/// exceed the default size limit; which patterns those are is named by
/// `regex_compiles`.
#[verifier::external_body]
pub(crate) fn new_regex(pattern: &str) -> (r: Result<regex::Regex, regex::Error>)
    ensures
        r is Ok <==> regex_compiles(pattern@),
{
    regex::Regex::new(pattern)
}

/// Compiles `pattern`, keeping the pattern as the result's view.
pub(crate) fn compile(pattern: &str) -> (r: Result<Pattern, regex::Error>)
    ensures
        match r {
            Ok(p) => p@ == pattern@ && regex_compiles(pattern@),
            Err(_) => !regex_compiles(pattern@),
        },
{
    match new_regex(pattern) {
        Ok(re) => Ok(Pattern { re, text: Ghost(pattern@) }),
        Err(e) => Err(e),
    }
}

/// Whether the regex matches anywhere in `s` (`Regex::is_match`).
#[verifier::external_body]
pub(crate) fn is_match(p: &Pattern, s: &str) -> (r: bool)
    ensures
        r == regex_is_match(p@, s@),
{
    p.re.is_match(s)
}

/// For each successive non-overlapping match in `s`, the text of capture
/// group 1, when that group took part in the match
/// (`Regex::captures_iter`, `Captures::get`).
#[verifier::external_body]
pub(crate) fn first_groups(p: &Pattern, s: &str) -> (r: Vec<Option<String>>)
    ensures
        r.deep_view() == group_one_matches(p@, s@),
{
    p.re.captures_iter(s).map(|c| c.get(1).map(|m| m.as_str().to_string())).collect()
}

} // verus!
