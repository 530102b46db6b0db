//! Regular-expression matching, done by the regex crate.

use vstd::prelude::*;

verus! {

/// Whether `Regex::new` accepts `pattern`.
pub uninterp spec fn regex_accepts(pattern: Seq<char>) -> bool;

/// What `Regex::captures` finds in `text`: the groups of the first match by
/// group number (group 0 being the whole match), `None` for a group that took
/// no part in it; `None` where `pattern` does not match.
pub uninterp spec fn regex_captures_of(pattern: Seq<char>, text: Seq<char>) -> Option<Seq<Option<Seq<char>>>>;

/// How many matches `Regex::captures_iter` yields on `text`: the successive
/// non-overlapping matches of `pattern`.
pub uninterp spec fn regex_match_count(pattern: Seq<char>, text: Seq<char>) -> nat;

pub open spec fn opt_view(o: Option<String>) -> Option<Seq<char>> {
    match o {
        Some(s) => Some(s@),
        None => None,
    }
}

pub open spec fn groups_view(g: Seq<Option<String>>) -> Seq<Option<Seq<char>>> {
    g.map_values(|o: Option<String>| opt_view(o))
}

pub open spec fn captures_view(c: Option<Vec<Option<String>>>) -> Option<Seq<Option<Seq<char>>>> {
    match c {
        Some(g) => Some(groups_view(g@)),
        None => None,
    }
}

/// `Regex::new(pattern)`, then `Regex::captures(text)`, each group copied
/// out by number. The error is the text the regex crate gives for a pattern
/// it refuses.
#[verifier::external_body]
pub(crate) fn regex_captures(pattern: &str, text: &str) -> (r: Result<Option<Vec<Option<String>>>, String>)
    ensures
        r is Ok <==> regex_accepts(pattern@),
        r matches Ok(c) ==> captures_view(c) == regex_captures_of(pattern@, text@),
{
    match regex::Regex::new(pattern) {
        Ok(re) => Ok(
            re.captures(text).map(
                |c| c.iter().map(|m| m.map(|m| m.as_str().to_string())).collect(),
            ),
        ),
        Err(e) => Err(e.to_string()),
    }
}

/// `Regex::new(pattern)`, then the number of items `Regex::captures_iter(text)` yields.
#[verifier::external_body]
pub(crate) fn regex_count(pattern: &str, text: &str) -> (r: Result<usize, String>)
    ensures
        r is Ok <==> regex_accepts(pattern@),
        r matches Ok(n) ==> n as nat == regex_match_count(pattern@, text@),
{
    match regex::Regex::new(pattern) {
        Ok(re) => Ok(re.captures_iter(text).count()),
        Err(e) => Err(e.to_string()),
    }
}

} // verus!
