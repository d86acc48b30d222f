//! Regular expressions, as far as this library leans on them: a search that
//! gives the groups of every match of a pattern in a text.
//!
//! The search is made by the `regex` crate. What a pattern matches is not
//! defined here: it is named, as a function of the pattern and the text, and
//! the rest of the library reasons about whatever the search gave.
use vstd::prelude::*;

verus! {

/// `regex::Error`: what `regex::Regex::new` gives in place of a pattern that
/// it refuses. Nothing is said of what it holds.
#[verifier::external_type_specification]
#[verifier::external_body]
pub struct ExRegexError(regex::Error);

/// Whether `regex::Regex::new` accepts `pattern`.
pub uninterp spec fn pattern_compiles(pattern: Seq<char>) -> bool;

/// What `regex::Regex::captures_iter` finds of `pattern` in `haystack`: the
/// matches in turn, from the left, no two overlapping; of each match the text
/// of each group, group 0 (the whole match) first, `None` for a group that
/// took no part in it.
pub uninterp spec fn all_matches(pattern: Seq<char>, haystack: Seq<char>) -> Seq<
    Seq<Option<Seq<char>>>,
>;

/// Calls `regex::Regex::new` on `pattern` and, where that succeeds,
/// `regex::Regex::captures_iter` on `haystack`, and copies each group's text
/// out of each match.
///
/// Believed, not proved: the call fails exactly on the patterns that do not
/// compile, and otherwise gives what the search is named to give.
#[verifier::external_body]
fn regex_captures_iter(pattern: &str, haystack: &str) -> (r: Result<
    Vec<Vec<Option<String>>>,
    regex::Error,
>)
    ensures
        r is Ok <==> pattern_compiles(pattern@),
        r matches Ok(found) ==> found.deep_view() == all_matches(pattern@, haystack@),
{
    let re = regex::Regex::new(pattern)?;
    Ok(
        re.captures_iter(haystack).map(
            |c| c.iter().map(|g| g.map(|m| m.as_str().to_string())).collect(),
        ).collect(),
    )
}

/// The pattern did not compile.
#[derive(Debug, PartialEq, Eq)]
pub struct InvalidPattern;

/// The groups of the first match of `pattern` in `haystack`, if there is one.
pub open spec fn first_match(pattern: Seq<char>, haystack: Seq<char>) -> Option<
    Seq<Option<Seq<char>>>,
> {
    let all = all_matches(pattern, haystack);
    if all.len() > 0 {
        Some(all[0])
    } else {
        None
    }
}

/// The groups of every match of `pattern` in `haystack`, from the left.
pub fn captures_iter(pattern: &str, haystack: &str) -> (r: Result<
    Vec<Vec<Option<String>>>,
    InvalidPattern,
>)
    ensures
        r is Ok <==> pattern_compiles(pattern@),
        r matches Ok(found) ==> found.deep_view() == all_matches(pattern@, haystack@),
{
    match regex_captures_iter(pattern, haystack) {
        Ok(found) => Ok(found),
        Err(_) => Err(InvalidPattern),
    }
}

/// The groups of the first match of `pattern` in `haystack`, if there is one.
pub fn captures(pattern: &str, haystack: &str) -> (r: Result<
    Option<Vec<Option<String>>>,
    InvalidPattern,
>)
    ensures
        r is Ok <==> pattern_compiles(pattern@),
        r matches Ok(found) ==> found.deep_view() == first_match(pattern@, haystack@),
{
    match captures_iter(pattern, haystack) {
        Ok(found) => {
            let mut found = found;
            if found.len() > 0 {
                let ghost all = found.deep_view();
                let first = found.swap_remove(0);
                assert(first.deep_view() == all[0]);
                Ok(Some(first))
            } else {
                Ok(None)
            }
        },
        Err(error) => Err(error),
    }
}

/// The text of group `i`, where the match has such a group and it took part.
pub open spec fn group_text(groups: Seq<Option<Seq<char>>>, i: int) -> Option<Seq<char>> {
    if 0 <= i < groups.len() {
        groups[i]
    } else {
        None
    }
}

/// The text of group `i` of a match, where it has such a group and it took part.
pub fn group(groups: &Vec<Option<String>>, i: usize) -> (r: Option<&str>)
    ensures
        r.deep_view() == group_text(groups.deep_view(), i as int),
{
    if i < groups.len() {
        match &groups[i] {
            Some(text) => Some(text.as_str()),
            None => None,
        }
    } else {
        None
    }
}

} // verus!
