//! The regular-expression engine behind the user-agent dialects.
//!
//! Nothing in this file is proved: each item states what the `regex` crate
//! documents of one of its functions, and the rest of the library reasons
//! from these statements.

use regex::Regex;
use vstd::prelude::*;

verus! {

#[verifier::external_type_specification]
#[verifier::external_body]
pub struct ExRegex(regex::Regex);

#[verifier::external_type_specification]
#[verifier::external_body]
pub struct ExRegexError(regex::Error);

/// The capture groups of one match: for each group of the pattern, by its
/// index, the text it captured, or nothing where it took no part in the match.
/// Group 0 is the whole match.
pub type Groups = Seq<Option<Seq<char>>>;

/// The pattern that `Regex::new` was given when it built the expression; the
/// crate keeps that text in the expression and hands it out as
/// `Regex::as_str`. The library builds its expressions with `Regex::new`
/// alone, and only of such expressions is anything claimed here.
pub uninterp spec fn pattern_source(re: Regex) -> Seq<char>;

/// What `Regex::captures` finds when the expression that `Regex::new` builds
/// from `pattern` searches `text`: the groups of the leftmost match, or
/// nothing where the pattern matches nowhere in the text.
pub uninterp spec fn pattern_captures(pattern: Seq<char>, text: Seq<char>) -> Option<Groups>;

/// The groups of a match as sequences of characters.
pub open spec fn groups_view(groups: Vec<Option<String>>) -> Groups {
    Seq::new(
        groups@.len(),
        |i: int|
            match groups@[i] {
                Some(text) => Some(text@),
                None => None,
            },
    )
}

/// The outcome of a search as sequences of characters.
pub open spec fn search_view(found: Option<Vec<Option<String>>>) -> Option<Groups> {
    match found {
        Some(groups) => Some(groups_view(groups)),
        None => None,
    }
}

/// `Regex::new`: compiles a pattern. Claimed: an expression that comes back
/// was built from `pattern`. Whether a pattern compiles is left open.
#[verifier::external_body]
pub(crate) fn compile(pattern: &str) -> (r: Result<Regex, regex::Error>)
    ensures
        r matches Ok(re) ==> pattern_source(re) == pattern@,
{
    Regex::new(pattern)
}

/// `Regex::captures`, with each group of the match copied out as a string by
/// `Captures::iter` and `Match::as_str`. Claimed: for an expression built by
/// `Regex::new`, what is found depends on the pattern and on the text alone,
/// so it is the named result for the two.
#[verifier::external_body]
pub(crate) fn captures(re: &Regex, text: &str) -> (found: Option<Vec<Option<String>>>)
    ensures
        search_view(found) == pattern_captures(pattern_source(*re), text@),
{
    re.captures(text).map(
        |caps| caps.iter().map(|group| group.map(|m| m.as_str().to_string())).collect(),
    )
}

/// The `Display` text of a `regex::Error`: the crate's account of why a
/// pattern did not compile. Nothing is claimed of it.
#[verifier::external_body]
pub(crate) fn describe(error: &regex::Error) -> String {
    error.to_string()
}

} // verus!
