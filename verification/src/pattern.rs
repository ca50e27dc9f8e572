//! Regular expressions, compiled and run by the `regex` crate.
//!
//! Every item here that touches `regex` is trusted: its contract is taken from the crate's
//! documentation and is not proved. Matching itself is named, not described: the names
//! below stand for what the crate computes, which depends on the pattern text and the
//! haystack alone.
use vstd::prelude::*;

use crate::text::views;

verus! {

#[verifier::external_type_specification]
#[verifier::external_body]
pub struct ExRegex(regex::Regex);

#[verifier::external_type_specification]
#[verifier::external_body]
pub struct ExRegexError(regex::Error);

/// Whether `regex::Regex::new` accepts the pattern `source` (it refuses syntax errors and
/// patterns that compile past the crate's default size limit).
pub uninterp spec fn regex_compiles(source: Seq<char>) -> bool;

/// What `regex::Regex::captures` finds for the pattern `source` in `haystack`: `None` when
/// there is no match, else the text of each capture group of the leftmost-first match, group 0
/// (the whole match) first, `None` for a group that did not take part.
pub uninterp spec fn regex_captures(source: Seq<char>, haystack: Seq<char>) -> Option<
    Seq<Option<Seq<char>>>,
>;

/// The texts of the successive non-overlapping matches that `regex::Regex::find_iter` yields
/// for the pattern `source` in `haystack`.
pub uninterp spec fn regex_find_all(source: Seq<char>, haystack: Seq<char>) -> Seq<Seq<char>>;

/// A compiled regular expression together with the pattern text it was compiled from. Only
/// `compile` makes one, from that text, so the two always agree.
pub struct Pattern {
    source: String,
    regex: regex::Regex,
}

impl View for Pattern {
    type V = Seq<char>;

    /// The pattern text.
    closed spec fn view(&self) -> Seq<char> {
        self.source@
    }
}

/// The capture groups as texts.
pub open spec fn group_views(groups: Seq<Option<String>>) -> Seq<Option<Seq<char>>> {
    groups.map_values(
        |g: Option<String>|
            match g {
                Some(s) => Some(s@),
                None => None,
            },
    )
}

/// Compiles `source` with `regex::Regex::new`. Trusted: the call succeeds exactly when the
/// crate accepts the pattern (`regex_compiles`), and the result remembers its source text.
#[verifier::external_body]
pub(crate) fn compile(source: &str) -> (res: Result<Pattern, regex::Error>)
    ensures
        res is Ok <==> regex_compiles(source@),
        res matches Ok(p) ==> p@ == source@,
{
    match regex::Regex::new(source) {
        Ok(regex) => Ok(Pattern { source: source.to_string(), regex }),
        Err(e) => Err(e),
    }
}

/// The capture groups of the first match of `p` in `haystack`, from `regex::Regex::captures`
/// and `regex::Captures::iter`. Trusted: the result is `regex_captures` of the pattern text
/// and the haystack.
#[verifier::external_body]
pub(crate) fn captures(p: &Pattern, haystack: &str) -> (res: Option<Vec<Option<String>>>)
    ensures
        res is None <==> regex_captures(p@, haystack@) is None,
        res matches Some(groups) ==> regex_captures(p@, haystack@) == Some(group_views(groups@)),
{
    p.regex.captures(haystack).map(
        |caps| caps.iter().map(|g| g.map(|m| m.as_str().to_string())).collect(),
    )
}

/// The texts of all matches of `p` in `haystack`, from `regex::Regex::find_iter`. Trusted:
/// the result is `regex_find_all` of the pattern text and the haystack.
#[verifier::external_body]
pub(crate) fn find_all(p: &Pattern, haystack: &str) -> (res: Vec<String>)
    ensures
        views(res@) == regex_find_all(p@, haystack@),
{
    p.regex.find_iter(haystack).map(|m| m.as_str().to_string()).collect()
}

/// The message of a compile error, from the `Display` impl of `regex::Error`. Trusted only
/// to return; nothing is claimed of the text.
#[verifier::external_body]
pub(crate) fn error_message(e: &regex::Error) -> String {
    e.to_string()
}

} // verus!
