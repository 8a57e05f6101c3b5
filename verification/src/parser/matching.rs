//! Regular expressions, compiled and run by the `regex` crate.
//!
//! Each function compiles its pattern with `Regex::new` and gives `None`
//! where the pattern is not a valid expression. What a match is takes the
//! crate's documentation to state, so each result is named by a function
//! of the pattern and the text.
use vstd::prelude::*;
use crate::text::{opt_view, strs_view};

verus! {

/// The capture groups of one match, each as its text if it took part.
pub open spec fn groups_view(g: Seq<Option<String>>) -> Seq<Option<Seq<char>>> {
    g.map_values(|o: Option<String>| opt_view(o))
}

/// The capture groups of several matches.
pub open spec fn matches_view(m: Seq<Vec<Option<String>>>) -> Seq<Seq<Option<Seq<char>>>> {
    m.map_values(|g: Vec<Option<String>>| groups_view(g@))
}

/// What [`regex_find`] returns.
pub uninterp spec fn spec_regex_find(pattern: Seq<char>, text: Seq<char>) -> Option<Option<Seq<char>>>;

/// What [`regex_is_match`] returns.
pub uninterp spec fn spec_regex_is_match(pattern: Seq<char>, text: Seq<char>) -> Option<bool>;

/// What [`regex_captures`] returns.
pub uninterp spec fn spec_regex_captures(pattern: Seq<char>, text: Seq<char>) -> Option<Option<Seq<Option<Seq<char>>>>>;

/// What [`regex_captures_all`] returns.
pub uninterp spec fn spec_regex_captures_all(pattern: Seq<char>, text: Seq<char>) -> Option<Seq<Seq<Option<Seq<char>>>>>;

/// What [`regex_find_all`] returns.
pub uninterp spec fn spec_regex_find_all(pattern: Seq<char>, text: Seq<char>) -> Option<Seq<Seq<char>>>;

/// What [`regex_replace_all`] returns.
pub uninterp spec fn spec_regex_replace_all(pattern: Seq<char>, text: Seq<char>, replacement: Seq<char>) -> Option<Seq<char>>;

/// `Regex::find`: the text of the leftmost-first match of `pattern` in
/// `text`, if any.
#[verifier::external_body]
pub(crate) fn regex_find(pattern: &str, text: &str) -> (r: Option<Option<String>>)
    ensures
        match r {
            Some(m) => spec_regex_find(pattern@, text@) == Some(opt_view(m)),
            None => spec_regex_find(pattern@, text@) == None::<Option<Seq<char>>>,
        },
{
    let re = regex::Regex::new(pattern).ok()?;
    Some(re.find(text).map(|m| m.as_str().to_string()))
}

/// `Regex::is_match`: whether `pattern` matches somewhere in `text`.
#[verifier::external_body]
pub(crate) fn regex_is_match(pattern: &str, text: &str) -> (r: Option<bool>)
    ensures
        r == spec_regex_is_match(pattern@, text@),
{
    let re = regex::Regex::new(pattern).ok()?;
    Some(re.is_match(text))
}

/// `Regex::captures`: the groups of the leftmost-first match, group 0
/// being the whole match.
#[verifier::external_body]
pub(crate) fn regex_captures(pattern: &str, text: &str) -> (r: Option<Option<Vec<Option<String>>>>)
    ensures
        match r {
            Some(Some(g)) => spec_regex_captures(pattern@, text@) == Some(Some(groups_view(g@))),
            Some(None) => spec_regex_captures(pattern@, text@) == Some(None::<Seq<Option<Seq<char>>>>),
            None => spec_regex_captures(pattern@, text@) == None::<Option<Seq<Option<Seq<char>>>>>,
        },
{
    let re = regex::Regex::new(pattern).ok()?;
    Some(re.captures(text).map(|c| c.iter().map(|g| g.map(|m| m.as_str().to_string())).collect()))
}

/// `Regex::captures_iter`: the groups of each successive non-overlapping
/// match.
#[verifier::external_body]
pub(crate) fn regex_captures_all(pattern: &str, text: &str) -> (r: Option<Vec<Vec<Option<String>>>>)
    ensures
        match r {
            Some(m) => spec_regex_captures_all(pattern@, text@) == Some(matches_view(m@)),
            None => spec_regex_captures_all(pattern@, text@) == None::<Seq<Seq<Option<Seq<char>>>>>,
        },
{
    let re = regex::Regex::new(pattern).ok()?;
    Some(re.captures_iter(text).map(|c| c.iter().map(|g| g.map(|m| m.as_str().to_string())).collect()).collect())
}

/// `Regex::find_iter`: the texts of the successive non-overlapping
/// matches.
#[verifier::external_body]
pub(crate) fn regex_find_all(pattern: &str, text: &str) -> (r: Option<Vec<String>>)
    ensures
        match r {
            Some(m) => spec_regex_find_all(pattern@, text@) == Some(strs_view(m@)),
            None => spec_regex_find_all(pattern@, text@) == None::<Seq<Seq<char>>>,
        },
{
    let re = regex::Regex::new(pattern).ok()?;
    Some(re.find_iter(text).map(|m| m.as_str().to_string()).collect())
}

/// `Regex::replace_all`: `text` with every match replaced by
/// `replacement`, in which `$1` stands for the first group.
#[verifier::external_body]
pub(crate) fn regex_replace_all(pattern: &str, text: &str, replacement: &str) -> (r: Option<String>)
    ensures
        opt_view(r) == spec_regex_replace_all(pattern@, text@, replacement@),
{
    let re = regex::Regex::new(pattern).ok()?;
    Some(re.replace_all(text, replacement).into_owned())
}

} // verus!
